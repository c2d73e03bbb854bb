//! The math formatter: equations and column alignment.
//!
//! Alignment markers (`&`) define columns that every line of a math block
//! aligns on. A first pass walks the children keeping a running column
//! position, recording for every marker the widest position seen so far and
//! shifting the later columns when a wider one appears. A second pass walks
//! them again, padding with spaces before each marker until its finalized
//! column is reached. Positions reset at every line break.

use vstd::prelude::*;

use crate::config::{indent_chars, Config};
use crate::context::{reindent, spaces};
use crate::node::{FmtKind, FmtNode};
use crate::utils::has_nl;

verus! {

/// `a + b`, stopping at the numeric limit.
pub open spec fn sat_add(a: usize, b: int) -> usize {
    if a + b > usize::MAX {
        usize::MAX
    } else {
        (a + b) as usize
    }
}

/// The columns from `k` on, each moved `d` characters right.
pub open spec fn shift_from(cols: Seq<usize>, k: int, d: int) -> Seq<usize> {
    Seq::new(cols.len(), |j: int| if j >= k { sat_add(cols[j], d) } else { cols[j] })
}

/// The first pass over the first `k` children: the recorded columns, the
/// marker index on the current line, and the running position.
pub open spec fn math_cols_upto(cs: Seq<FmtNode>, rs: Seq<Seq<char>>, k: int) -> (
    Seq<usize>,
    int,
    usize,
)
    decreases k,
{
    if k <= 0 {
        (Seq::empty(), 0int, 0usize)
    } else {
        let (cols, idx, pos) = math_cols_upto(cs, rs, k - 1);
        let i = k - 1;
        let kd = cs[i].kind;
        if cs[i].preserve {
            (cols, idx, sat_add(pos, rs[i].len() as int))
        } else if kd == FmtKind::MathAlignPoint {
            if cols.len() <= idx {
                (cols.push(pos), idx + 1, sat_add(pos, rs[i].len() as int))
            } else if cols[idx] < pos {
                (
                    shift_from(cols, idx, pos - cols[idx]),
                    idx + 1,
                    sat_add(pos, rs[i].len() as int),
                )
            } else {
                (cols, idx + 1, sat_add(cols[idx], rs[i].len() as int))
            }
        } else if kd == FmtKind::Space && has_nl(rs[i]) {
            (cols, 0int, 0usize)
        } else if kd == FmtKind::Space {
            (cols, idx, sat_add(pos, 1))
        } else {
            (cols, idx, sat_add(pos, rs[i].len() as int))
        }
    }
}

/// The columns the alignment markers settle on.
pub open spec fn math_cols_spec(node: FmtNode, rs: Seq<Seq<char>>) -> Seq<usize> {
    math_cols_upto(node.children@, rs, node.children@.len() as int).0
}

/// The second pass over the first `k` children: the text, the marker index
/// and position on the current line, whether no marker was seen yet, and
/// whether lines that start with a marker get the indent prefix.
pub open spec fn math_fmt_upto(
    cs: Seq<FmtNode>,
    rs: Seq<Seq<char>>,
    cols: Seq<usize>,
    ind: Seq<char>,
    k: int,
) -> (Seq<char>, int, usize, bool, bool)
    decreases k,
{
    if k <= 0 {
        (Seq::empty(), 0int, 0usize, true, false)
    } else {
        let (acc, idx, pos, first, should) = math_fmt_upto(cs, rs, cols, ind, k - 1);
        let i = k - 1;
        let kd = cs[i].kind;
        if cs[i].preserve {
            (acc + rs[i], idx, sat_add(pos, rs[i].len() as int), first, should)
        } else if kd == FmtKind::MathAlignPoint {
            let cval = if 0 <= idx < cols.len() {
                cols[idx]
            } else {
                pos
            };
            let should1 = should || (pos == 0 && first);
            let prefix = if pos == 0 && should1 {
                ind
            } else {
                Seq::<char>::empty()
            };
            let base = if cval >= pos {
                cval
            } else {
                pos
            };
            (
                acc + prefix + spaces(base - pos) + rs[i],
                idx + 1,
                sat_add(base, rs[i].len() as int),
                false,
                should1,
            )
        } else if kd == FmtKind::Space && has_nl(rs[i]) {
            (acc + rs[i], 0int, 0usize, first, should)
        } else if kd == FmtKind::Space {
            (acc + seq![' '], idx, sat_add(pos, 1), first, should)
        } else {
            (acc + rs[i], idx, sat_add(pos, rs[i].len() as int), first, should)
        }
    }
}

/// What `format_math` produces.
pub open spec fn math_fmt_spec(node: FmtNode, rs: Seq<Seq<char>>, ind: Seq<char>) -> Seq<char> {
    math_fmt_upto(
        node.children@,
        rs,
        math_cols_spec(node, rs),
        ind,
        node.children@.len() as int,
    ).0
}

/// The columns the alignment markers of this math block settle on: for each
/// marker position on a line, the widest column any line needs.
pub fn retrieve_align_point(node: &FmtNode, children: &Vec<String>) -> (r: Vec<usize>)
    requires
        children@.len() == node.children@.len(),
    ensures
        r@ == math_cols_spec(*node, children@.map_values(|s: String| s@)),
{
    let ghost rs = children@.map_values(|s: String| s@);
    let n = node.children.len();
    let mut cols: Vec<usize> = Vec::new();
    let mut idx: usize = 0;
    let mut pos: usize = 0;
    let mut i: usize = 0;
    while i < n
        invariant
            i <= n,
            n == node.children@.len(),
            children@.len() == n,
            rs == children@.map_values(|s: String| s@),
            idx <= i,
            ({
                let st = math_cols_upto(node.children@, rs, i as int);
                cols@ == st.0 && idx as int == st.1 && pos == st.2
            }),
        decreases n - i,
    {
        let kd = node.children[i].kind;
        proof {
            assert(rs[i as int] == children@[i as int]@);
        }
        let l = children[i].as_str().unicode_len();
        if node.children[i].preserve {
            pos = sat_add_x(pos, l);
        } else if kd == FmtKind::MathAlignPoint {
            if cols.len() <= idx {
                cols.push(pos);
                pos = sat_add_x(pos, l);
            } else if cols[idx] < pos {
                let d = pos - cols[idx];
                let m = cols.len();
                let mut j: usize = idx;
                let ghost orig = cols@;
                while j < m
                    invariant
                        idx <= j <= m,
                        m == cols@.len(),
                        orig.len() == m,
                        forall|q: int| j <= q < m ==> cols@[q] == orig[q],
                        forall|q: int|
                            0 <= q < j ==> cols@[q] == shift_from(orig, idx as int, d as int)[q],
                    decreases m - j,
                {
                    let nv = sat_add_x(cols[j], d);
                    cols.set(j, nv);
                    j = j + 1;
                }
                proof {
                    assert(cols@ =~= shift_from(orig, idx as int, d as int));
                }
                pos = sat_add_x(pos, l);
            } else {
                let base = cols[idx];
                pos = sat_add_x(base, l);
            }
            idx = idx + 1;
        } else if kd == FmtKind::Space && crate::utils::contains_newline(children[i].as_str()) {
            idx = 0;
            pos = 0;
        } else if kd == FmtKind::Space {
            pos = sat_add_x(pos, 1);
        } else {
            pos = sat_add_x(pos, l);
        }
        i = i + 1;
    }
    cols
}

/// `a + b`, stopping at the numeric limit.
fn sat_add_x(a: usize, b: usize) -> (r: usize)
    ensures
        r == sat_add(a, b as int),
{
    if a <= usize::MAX - b {
        a + b
    } else {
        usize::MAX
    }
}

/// Renders a math block: the children in order, each alignment marker
/// padded with spaces until its settled column, positions resetting at each
/// line break; a multi-line block gets the indent prefix on lines that
/// start with a marker.
pub fn format_math(node: &FmtNode, children: &Vec<String>, config: &Config) -> (r: String)
    requires
        children@.len() == node.children@.len(),
    ensures
        r@ == math_fmt_spec(
            *node,
            children@.map_values(|s: String| s@),
            indent_chars(config.indent, 1),
        ),
{
    let ghost rs = children@.map_values(|s: String| s@);
    let cols = retrieve_align_point(node, children);
    let ind = config.indent.get(1);
    proof {
        assert(indent_chars(config.indent, (1usize) as nat) == indent_chars(config.indent, 1));
    }
    let n = node.children.len();
    let mut out = String::new();
    let mut idx: usize = 0;
    let mut pos: usize = 0;
    let mut first: bool = true;
    let mut should: bool = false;
    let mut i: usize = 0;
    while i < n
        invariant
            i <= n,
            n == node.children@.len(),
            children@.len() == n,
            rs == children@.map_values(|s: String| s@),
            ind@ == indent_chars(config.indent, 1),
            cols@ == math_cols_spec(*node, rs),
            idx <= i,
            ({
                let st = math_fmt_upto(node.children@, rs, cols@, ind@, i as int);
                out@ == st.0 && idx as int == st.1 && pos == st.2 && first == st.3 && should
                    == st.4
            }),
        decreases n - i,
    {
        let kd = node.children[i].kind;
        proof {
            assert(rs[i as int] == children@[i as int]@);
        }
        let l = children[i].as_str().unicode_len();
        if node.children[i].preserve {
            out.append(children[i].as_str());
            pos = sat_add_x(pos, l);
        } else if kd == FmtKind::MathAlignPoint {
            let cval = if idx < cols.len() {
                cols[idx]
            } else {
                pos
            };
            let first_here = pos == 0 && first;
            if first_here {
                should = true;
            }
            if pos == 0 && should {
                out.append(ind.as_str());
            }
            let base = if cval >= pos {
                cval
            } else {
                pos
            };
            let pad = base - pos;
            let mut t: usize = 0;
            let ghost before = out@;
            proof {
                assert(out@ =~= before + spaces(0));
            }
            while t < pad
                invariant
                    t <= pad,
                    out@ == before + spaces(t as int),
                decreases pad - t,
            {
                out.append(" ");
                proof {
                    reveal_strlit(" ");
                    assert(before + spaces(t as int) + " "@ =~= before + spaces(t + 1));
                }
                t = t + 1;
            }
            out.append(children[i].as_str());
            pos = sat_add_x(base, l);
            idx = idx + 1;
            first = false;
        } else if kd == FmtKind::Space && crate::utils::contains_newline(children[i].as_str()) {
            out.append(children[i].as_str());
            idx = 0;
            pos = 0;
        } else if kd == FmtKind::Space {
            out.append(" ");
            proof {
                reveal_strlit(" ");
                let st = math_fmt_upto(node.children@, rs, cols@, ind@, i as int);
                assert(st.0 + " "@ =~= st.0 + seq![' ']);
            }
            pos = sat_add_x(pos, 1);
        } else {
            out.append(children[i].as_str());
            pos = sat_add_x(pos, l);
        }
        i = i + 1;
    }
    out
}

/// Whether the equation's body starts on its own line (its first inner
/// whitespace run holds a line break).
pub open spec fn eq_newline(cs: Seq<FmtNode>) -> bool {
    cs.len() > 1 && cs[1].kind == FmtKind::Space && has_nl(cs[1].text@)
}

/// The rendering of the first `k` children of an equation.
pub open spec fn eq_upto(
    cs: Seq<FmtNode>,
    rs: Seq<Seq<char>>,
    ind: Seq<char>,
    nl: bool,
    k: int,
) -> Seq<char>
    decreases k,
{
    if k <= 0 {
        Seq::empty()
    } else {
        let acc = eq_upto(cs, rs, ind, nl, k - 1);
        let i = k - 1;
        let kd = cs[i].kind;
        if cs[i].preserve {
            acc + rs[i]
        } else if kd == FmtKind::Space {
            acc + (if nl {
                seq!['\n']
            } else {
                seq![' ']
            })
        } else if kd == FmtKind::Math && nl {
            acc + ind + reindent(rs[i], ind)
        } else {
            acc + rs[i]
        }
    }
}

/// What `format_equation` produces.
pub open spec fn eq_spec(node: FmtNode, rs: Seq<Seq<char>>, ind: Seq<char>) -> Seq<char> {
    eq_upto(node.children@, rs, ind, eq_newline(node.children@), node.children@.len() as int)
}

/// Renders an equation: the dollars and the math body, separated by a
/// space for an inline equation or by line breaks (with the body indented)
/// for a block equation.
pub fn format_equation(node: &FmtNode, children: &Vec<String>, config: &Config) -> (r: String)
    requires
        children@.len() == node.children@.len(),
    ensures
        r@ == eq_spec(
            *node,
            children@.map_values(|s: String| s@),
            indent_chars(config.indent, 1),
        ),
{
    let ghost rs = children@.map_values(|s: String| s@);
    let ind = config.indent.get(1);
    proof {
        assert(indent_chars(config.indent, (1usize) as nat) == indent_chars(config.indent, 1));
    }
    let n = node.children.len();
    let nl = n > 1 && node.children[1].kind == FmtKind::Space && crate::utils::contains_newline(
        node.children[1].text.as_str(),
    );
    let mut out = String::new();
    let mut i: usize = 0;
    while i < n
        invariant
            i <= n,
            n == node.children@.len(),
            children@.len() == n,
            rs == children@.map_values(|s: String| s@),
            ind@ == indent_chars(config.indent, 1),
            nl == eq_newline(node.children@),
            out@ == eq_upto(node.children@, rs, ind@, nl, i as int),
        decreases n - i,
    {
        let kd = node.children[i].kind;
        proof {
            assert(rs[i as int] == children@[i as int]@);
        }
        if node.children[i].preserve {
            out.append(children[i].as_str());
        } else if kd == FmtKind::Space {
            if nl {
                out.append("\n");
                proof {
                    reveal_strlit("\n");
                    let acc = eq_upto(node.children@, rs, ind@, nl, i as int);
                    assert(acc + "\n"@ =~= acc + seq!['\n']);
                }
            } else {
                out.append(" ");
                proof {
                    reveal_strlit(" ");
                    let acc = eq_upto(node.children@, rs, ind@, nl, i as int);
                    assert(acc + " "@ =~= acc + seq![' ']);
                }
            }
        } else if kd == FmtKind::Math && nl {
            out.append(ind.as_str());
            let re = crate::context::reindent_text(children[i].as_str(), ind.as_str());
            out.append(re.as_str());
        } else {
            out.append(children[i].as_str());
        }
        i = i + 1;
    }
    out
}

} // verus!
