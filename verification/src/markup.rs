//! The markup formatter: word streams, wrapping, paragraph breaks.
//!
//! Adjacent inline nodes form one stream; whitespace between them becomes a
//! single space, or a line break when wrapping is on and the next word
//! would push the line past the limit. Paragraph breaks always produce one
//! blank line, and a comment is flushed with a forced line break when more
//! content follows. Whitespace at either edge of the run is dropped.

use vstd::prelude::*;

use crate::config::Config;
use crate::node::{next_skipping, prev_skipping, FmtKind, FmtNode};
use crate::utils::{has_nl, last_line_len};

verus! {

/// Whether some child before `i` is not whitespace.
pub open spec fn has_item_before(cs: Seq<FmtNode>, i: int) -> bool {
    exists|j: int| 0 <= j < i && cs[j].kind != FmtKind::Space
}

/// Whether some child after `i` is not whitespace.
pub open spec fn has_item_after(cs: Seq<FmtNode>, i: int) -> bool {
    next_skipping(cs, i, false) >= 0
}

/// The length of the word starting at `q`: characters up to the next
/// whitespace.
pub open spec fn next_word_len(t: Seq<char>, q: int) -> nat
    decreases t.len() - q,
{
    if q < 0 || q >= t.len() || t[q] == ' ' || t[q] == '\n' {
        0
    } else {
        next_word_len(t, q + 1) + 1
    }
}

/// The length of the word starting at `q`.
pub fn word_len_from(v: &Vec<char>, q: usize) -> (r: usize)
    ensures
        r == next_word_len(v@, q as int),
    decreases v@.len() - q,
{
    if q >= v.len() || v[q] == ' ' || v[q] == '\n' {
        0
    } else {
        let rest = word_len_from(v, q + 1);
        if rest < usize::MAX {
            rest + 1
        } else {
            proof {
                lemma_word_len_le(v@, q as int + 1);
                assert(false);
            }
            usize::MAX
        }
    }
}

proof fn lemma_word_len_le(t: Seq<char>, q: int)
    ensures
        next_word_len(t, q) == 0 || (0 <= q && q + next_word_len(t, q) <= t.len()),
    decreases t.len() - q,
{
    if 0 <= q < t.len() {
        lemma_word_len_le(t, q + 1);
    }
}

/// A text run reflowed into `acc` from position `q` on: words go out
/// verbatim, each run of spaces becomes one space, or a line break when
/// wrapping is on and the word after it would push the line past the limit;
/// spaces at the end of the run are dropped.
pub open spec fn reflow(acc: Seq<char>, t: Seq<char>, q: int, wrap: bool, maxl: int) -> Seq<char>
    decreases t.len() - q,
{
    if q < 0 || q >= t.len() {
        acc
    } else if t[q] == ' ' {
        if q + 1 >= t.len() {
            acc
        } else if t[q + 1] == ' ' {
            reflow(acc, t, q + 1, wrap, maxl)
        } else {
            let wl = next_word_len(t, q + 1);
            let sep = if wrap && last_line_len(acc) + 1 + wl > maxl {
                '\n'
            } else {
                ' '
            };
            reflow(acc.push(sep), t, q + 1, wrap, maxl)
        }
    } else {
        reflow(acc.push(t[q]), t, q + 1, wrap, maxl)
    }
}

/// A construct that must start its own line: a heading, or a list,
/// enumeration or term item.
pub open spec fn line_start_kind(k: FmtKind) -> bool {
    k == FmtKind::ListLike || k == FmtKind::OneLineMarkup
}

/// A construct that a line break must follow: a statement (a binding, a
/// set or show rule, an import or include, which the parser ends at the
/// line break), or an explicit line-break token.
pub open spec fn breaks_after_kind(k: FmtKind) -> bool {
    line_start_kind(k) || k == FmtKind::WithSpacing(crate::node::Spacing::StrongBrkLine)
}

/// A whitespace run at `i` that held a line break and borders a construct
/// bound to its line keeps the break whatever the wrap mode.
pub open spec fn guards_line_start(cs: Seq<FmtNode>, i: int) -> bool {
    &&& has_nl(cs[i].text@)
    &&& ({
        ||| ({
            let j = next_skipping(cs, i, false);
            j >= 0 && line_start_kind(cs[j].kind)
        })
        ||| ({
            let j = prev_skipping(cs, i, false);
            j >= 0 && breaks_after_kind(cs[j].kind)
        })
    })
}

/// What a whitespace run between words becomes: nothing at the edges; a
/// break bordering a line-start construct stays a break; otherwise, with
/// wrapping on, a line break when the next word would not fit, else one
/// space; with wrapping off, a line break if it held one, else one space.
pub open spec fn space_piece(
    cs: Seq<FmtNode>,
    rs: Seq<Seq<char>>,
    acc: Seq<char>,
    i: int,
    wrap: bool,
    keep_breaks: bool,
    maxl: int,
) -> Seq<char> {
    if !has_item_before(cs, i) || !has_item_after(cs, i) {
        Seq::empty()
    } else if guards_line_start(cs, i) {
        seq!['\n']
    } else if wrap {
        let j = next_skipping(cs, i, false);
        if last_line_len(acc) + 1 + next_word_len(rs[j], 0) > maxl {
            seq!['\n']
        } else {
            seq![' ']
        }
    } else if keep_breaks && has_nl(cs[i].text@) {
        seq!['\n']
    } else {
        seq![' ']
    }
}

/// The rendering of the first `k` children of a markup run.
pub open spec fn markup_upto(
    cs: Seq<FmtNode>,
    rs: Seq<Seq<char>>,
    wrap: bool,
    keep_breaks: bool,
    maxl: int,
    k: int,
) -> Seq<char>
    decreases k,
{
    if k <= 0 {
        Seq::empty()
    } else {
        let acc = markup_upto(cs, rs, wrap, keep_breaks, maxl, k - 1);
        let i = k - 1;
        let kd = cs[i].kind;
        if cs[i].preserve {
            acc + rs[i]
        } else if kd == FmtKind::Space {
            acc + space_piece(cs, rs, acc, i, wrap, keep_breaks, maxl)
        } else if kd == FmtKind::Text {
            if wrap {
                reflow(acc, rs[i], 0, wrap, maxl)
            } else {
                acc + crate::utils::collapse_spaces(rs[i])
            }
        } else if kd == FmtKind::Parbreak {
            acc + seq!['\n', '\n']
        } else if kd == FmtKind::LineComment || kd == FmtKind::BlockComment {
            acc + rs[i] + (if has_item_after(cs, i) {
                seq!['\n']
            } else {
                Seq::<char>::empty()
            })
        } else {
            acc + rs[i]
        }
    }
}

/// What `format_markup` produces.
pub open spec fn markup_spec(
    node: FmtNode,
    rs: Seq<Seq<char>>,
    wrap: bool,
    keep_breaks: bool,
    maxl: int,
) -> Seq<char> {
    markup_upto(node.children@, rs, wrap, keep_breaks, maxl, node.children@.len() as int)
}

proof fn lemma_reflow_prefix(acc: Seq<char>, t: Seq<char>, q: int, wrap: bool, maxl: int)
    ensures
        reflow(acc, t, q, wrap, maxl).len() >= acc.len(),
        reflow(acc, t, q, wrap, maxl).subrange(0, acc.len() as int) == acc,
    decreases t.len() - q,
{
    let r = reflow(acc, t, q, wrap, maxl);
    if q < 0 || q >= t.len() {
        assert(r.subrange(0, acc.len() as int) =~= acc);
    } else if t[q] == ' ' {
        if q + 1 >= t.len() {
            assert(r.subrange(0, acc.len() as int) =~= acc);
        } else if t[q + 1] == ' ' {
            lemma_reflow_prefix(acc, t, q + 1, wrap, maxl);
        } else {
            let wl = next_word_len(t, q + 1);
            let sep = if wrap && last_line_len(acc) + 1 + wl > maxl {
                '\n'
            } else {
                ' '
            };
            lemma_reflow_prefix(acc.push(sep), t, q + 1, wrap, maxl);
            assert(r.subrange(0, acc.len() as int) =~= acc) by {
                assert(r.subrange(0, acc.push(sep).len() as int) == acc.push(sep));
                assert(forall|m: int|
                    0 <= m < acc.push(sep).len() ==> #[trigger] r.subrange(
                        0,
                        acc.push(sep).len() as int,
                    )[m] == r[m]);
            }
        }
    } else {
        lemma_reflow_prefix(acc.push(t[q]), t, q + 1, wrap, maxl);
        assert(r.subrange(0, acc.len() as int) =~= acc) by {
            assert(r.subrange(0, acc.push(t[q]).len() as int) == acc.push(t[q]));
            assert(forall|m: int|
                0 <= m < acc.push(t[q]).len() ==> #[trigger] r.subrange(
                    0,
                    acc.push(t[q]).len() as int,
                )[m] == r[m]);
        }
    }
}

proof fn lemma_markup_upto_prefix(
    cs: Seq<FmtNode>,
    rs: Seq<Seq<char>>,
    wrap: bool,
    keep_breaks: bool,
    maxl: int,
    k1: int,
    k2: int,
)
    requires
        0 <= k1 <= k2,
    ensures
        markup_upto(cs, rs, wrap, keep_breaks, maxl, k1).len() <= markup_upto(
            cs,
            rs,
            wrap,
            keep_breaks,
            maxl,
            k2,
        ).len(),
        markup_upto(cs, rs, wrap, keep_breaks, maxl, k2).subrange(
            0,
            markup_upto(cs, rs, wrap, keep_breaks, maxl, k1).len() as int,
        ) == markup_upto(cs, rs, wrap, keep_breaks, maxl, k1),
    decreases k2 - k1,
{
    let a = markup_upto(cs, rs, wrap, keep_breaks, maxl, k1);
    if k1 < k2 {
        lemma_markup_upto_prefix(cs, rs, wrap, keep_breaks, maxl, k1, k2 - 1);
        let b = markup_upto(cs, rs, wrap, keep_breaks, maxl, k2 - 1);
        let c = markup_upto(cs, rs, wrap, keep_breaks, maxl, k2);
        assert(b.subrange(0, a.len() as int) == a);
        let i = k2 - 1;
        if !cs[i].preserve && cs[i].kind == FmtKind::Text && wrap {
            lemma_reflow_prefix(b, rs[i], 0, wrap, maxl);
        }
        assert(c.subrange(0, b.len() as int) =~= b);
        assert(c.subrange(0, a.len() as int) =~= b.subrange(0, a.len() as int)) by {
            assert(forall|m: int|
                0 <= m < b.len() ==> #[trigger] c.subrange(0, b.len() as int)[m] == c[m]);
        }
    } else {
        assert(a.subrange(0, a.len() as int) =~= a);
    }
}

/// Preserve correctness in the markup stream: the rendering of a child the
/// preserve pass tagged appears in the run's rendering exactly as it is,
/// and a preserved child renders as its verbatim source text. So the text
/// of a preserved region reaches the output byte for byte.
pub proof fn lemma_markup_keeps_preserved(
    cs: Seq<FmtNode>,
    rs: Seq<Seq<char>>,
    wrap: bool,
    keep_breaks: bool,
    maxl: int,
    i: int,
)
    requires
        0 <= i < cs.len(),
        cs[i].preserve,
    ensures
        crate::preserve_pass::contains_seq(
            markup_upto(cs, rs, wrap, keep_breaks, maxl, cs.len() as int),
            rs[i],
        ),
{
    let a = markup_upto(cs, rs, wrap, keep_breaks, maxl, i);
    let b = markup_upto(cs, rs, wrap, keep_breaks, maxl, i + 1);
    let full = markup_upto(cs, rs, wrap, keep_breaks, maxl, cs.len() as int);
    assert(b == a + rs[i]);
    lemma_markup_upto_prefix(cs, rs, wrap, keep_breaks, maxl, i + 1, cs.len() as int);
    assert(full.subrange(0, b.len() as int) == b);
    assert(full.subrange(a.len() as int, a.len() + rs[i].len() as int) =~= rs[i]) by {
        assert(forall|q: int|
            0 <= q < rs[i].len() ==> #[trigger] full.subrange(
                a.len() as int,
                a.len() + rs[i].len() as int,
            )[q] == full[a.len() + q]);
        assert(forall|q: int|
            0 <= q < rs[i].len() ==> #[trigger] b[a.len() + q] == (a + rs[i])[a.len() + q]);
        assert(forall|q: int|
            0 <= q < b.len() ==> #[trigger] full[q] == full.subrange(0, b.len() as int)[q]);
    }
}

/// Renders a markup run. `wrap` reflows the word stream against the line
/// limit; with it off, `keep_breaks` decides whether whitespace that held a
/// line break keeps one (a heading, confined to one line, drops them).
pub fn format_markup(
    node: &FmtNode,
    children: &Vec<String>,
    config: &Config,
    wrap: bool,
    keep_breaks: bool,
) -> (r: String)
    requires
        children@.len() == node.children@.len(),
    ensures
        r@ == markup_spec(
            *node,
            children@.map_values(|s: String| s@),
            wrap,
            keep_breaks,
            config.max_line_length as int,
        ),
{
    let ghost rs = children@.map_values(|s: String| s@);
    let maxl = config.max_line_length;
    let n = node.children.len();
    let mut out = String::new();
    let mut seen_item: bool = false;
    let mut i: usize = 0;
    while i < n
        invariant
            i <= n,
            n == node.children@.len(),
            children@.len() == n,
            rs == children@.map_values(|s: String| s@),
            seen_item == has_item_before(node.children@, i as int),
            out@ == markup_upto(node.children@, rs, wrap, keep_breaks, maxl as int, i as int),
        decreases n - i,
    {
        let kd = node.children[i].kind;
        proof {
            assert(rs[i as int] == children@[i as int]@);
        }
        if node.children[i].preserve {
            out.append(children[i].as_str());
            proof {
                if node.children@[i as int].kind != FmtKind::Space {
                    assert(has_item_before(node.children@, i + 1));
                }
                if has_item_before(node.children@, i + 1) && !has_item_before(
                    node.children@,
                    i as int,
                ) {
                    let j = choose|j: int|
                        0 <= j < i + 1 && node.children@[j].kind != FmtKind::Space;
                    assert(j == i);
                }
            }
            if !(node.children[i].kind == FmtKind::Space) {
                seen_item = true;
            }
        } else if kd == FmtKind::Space {
            proof {
                if has_item_before(node.children@, i + 1) && !has_item_before(
                    node.children@,
                    i as int,
                ) {
                    let j = choose|j: int|
                        0 <= j < i + 1 && node.children@[j].kind != FmtKind::Space;
                    assert(false);
                }
            }
            match crate::node::get_next_ignoring(&node.children, i, false) {
                Option::None => {
                    // trailing whitespace: dropped
                },
                Option::Some(j) => {
                    let guards = crate::utils::contains_newline(node.children[i].text.as_str())
                        && (crate::node::next_is_ignoring(&node.children, i, FmtKind::ListLike, false)
                            || crate::node::next_is_ignoring(
                            &node.children,
                            i,
                            FmtKind::OneLineMarkup,
                            false,
                        ) || crate::node::prev_is_ignoring(&node.children, i, FmtKind::ListLike, false)
                            || crate::node::prev_is_ignoring(
                            &node.children,
                            i,
                            FmtKind::OneLineMarkup,
                            false,
                        ) || crate::node::prev_is_ignoring(
                            &node.children,
                            i,
                            FmtKind::WithSpacing(crate::node::Spacing::StrongBrkLine),
                            false,
                        ));
                    if !seen_item {
                        // leading whitespace: dropped
                    } else if guards {
                        out.append("\n");
                        proof {
                            reveal_strlit("\n");
                            let acc = markup_upto(
                                node.children@,
                                rs,
                                wrap,
                                keep_breaks,
                                maxl as int,
                                i as int,
                            );
                            assert(acc + "\n"@ =~= acc + seq!['\n']);
                        }
                    } else if wrap {
                        proof {
                            assert(rs[j as int] == children@[j as int]@);
                        }
                        let a = crate::utils::last_line_length(out.as_str());
                        let next_v = crate::strconv::str_chars(children[j].as_str());
                        let b = word_len_from(&next_v, 0);
                        let over: bool = if a >= maxl {
                            true
                        } else {
                            b > maxl - a - 1
                        };
                        if over {
                            out.append("\n");
                            proof {
                                reveal_strlit("\n");
                                let acc = markup_upto(
                                    node.children@,
                                    rs,
                                    wrap,
                                    keep_breaks,
                                    maxl as int,
                                    i as int,
                                );
                                assert(acc + "\n"@ =~= acc + seq!['\n']);
                            }
                        } else {
                            out.append(" ");
                            proof {
                                reveal_strlit(" ");
                                let acc = markup_upto(
                                    node.children@,
                                    rs,
                                    wrap,
                                    keep_breaks,
                                    maxl as int,
                                    i as int,
                                );
                                assert(acc + " "@ =~= acc + seq![' ']);
                            }
                        }
                    } else if keep_breaks && crate::utils::contains_newline(
                        node.children[i].text.as_str(),
                    ) {
                        out.append("\n");
                        proof {
                            reveal_strlit("\n");
                            let acc = markup_upto(
                                node.children@,
                                rs,
                                wrap,
                                keep_breaks,
                                maxl as int,
                                i as int,
                            );
                            assert(acc + "\n"@ =~= acc + seq!['\n']);
                        }
                    } else {
                        out.append(" ");
                        proof {
                            reveal_strlit(" ");
                            let acc = markup_upto(
                                node.children@,
                                rs,
                                wrap,
                                keep_breaks,
                                maxl as int,
                                i as int,
                            );
                            assert(acc + " "@ =~= acc + seq![' ']);
                        }
                    }
                },
            }
        } else if kd == FmtKind::Text {
            if wrap {
                let t = crate::strconv::str_chars(children[i].as_str());
                let tn = t.len();
                let mut q: usize = 0;
                let ghost entry = out@;
                while q < tn
                    invariant
                        wrap,
                        q <= tn,
                        tn == t@.len(),
                        reflow(out@, t@, q as int, wrap, maxl as int) == reflow(
                            entry,
                            t@,
                            0,
                            wrap,
                            maxl as int,
                        ),
                    decreases tn - q,
                {
                    let c = t[q];
                    let ghost pre = out@;
                    if c == ' ' {
                        if q + 1 >= tn {
                            // trailing space of the run: dropped
                            proof {
                                assert(reflow(pre, t@, q as int, wrap, maxl as int) == pre);
                                assert(reflow(pre, t@, q + 1, wrap, maxl as int) == pre);
                            }
                        } else if t[q + 1] == ' ' {
                            // the run collapses to one separator
                            proof {
                                assert(reflow(pre, t@, q as int, wrap, maxl as int) == reflow(
                                    pre,
                                    t@,
                                    q + 1,
                                    wrap,
                                    maxl as int,
                                ));
                            }
                        } else {
                            let a = crate::utils::last_line_length(out.as_str());
                            let wl = word_len_from(&t, q + 1);
                            let over: bool = if a >= maxl {
                                true
                            } else {
                                wl > maxl - a - 1
                            };
                            if over {
                                out.append("\n");
                                proof {
                                    reveal_strlit("\n");
                                    assert(out@ =~= pre.push('\n'));
                                }
                            } else {
                                out.append(" ");
                                proof {
                                    reveal_strlit(" ");
                                    assert(out@ =~= pre.push(' '));
                                    assert(reflow(pre, t@, q as int, wrap, maxl as int) == reflow(
                                        out@,
                                        t@,
                                        q + 1,
                                        wrap,
                                        maxl as int,
                                    ));
                                }
                            }
                        }
                    } else {
                        let one_v = vec![c];
                        let one = crate::strconv::chars_string(&one_v);
                        out.append(one.as_str());
                        proof {
                            assert(one_v@ =~= seq![c]);
                            assert(out@ =~= pre.push(c));
                            assert(reflow(pre, t@, q as int, wrap, maxl as int) == reflow(
                                out@,
                                t@,
                                q + 1,
                                wrap,
                                maxl as int,
                            ));
                        }
                    }
                    q = q + 1;
                }
            } else {
                let collapsed = crate::utils::collapse_space_runs(children[i].as_str());
                out.append(collapsed.as_str());
            }
            seen_item = true;
            proof {
                assert(node.children@[i as int].kind != FmtKind::Space);
                assert(has_item_before(node.children@, i + 1));
            }
        } else if kd == FmtKind::Parbreak {
            out.append("\n\n");
            seen_item = true;
            proof {
                assert(node.children@[i as int].kind != FmtKind::Space);
                assert(has_item_before(node.children@, i + 1));
            }
            proof {
                reveal_strlit("\n\n");
                let acc = markup_upto(node.children@, rs, wrap, keep_breaks, maxl as int, i as int);
                assert(acc + "\n\n"@ =~= acc + seq!['\n', '\n']);
            }
        } else if kd == FmtKind::LineComment || kd == FmtKind::BlockComment {
            out.append(children[i].as_str());
            match crate::node::get_next_ignoring(&node.children, i, false) {
                Option::Some(_) => {
                    out.append("\n");
                    proof {
                        reveal_strlit("\n");
                        let acc = markup_upto(
                            node.children@,
                            rs,
                            wrap,
                            keep_breaks,
                            maxl as int,
                            i as int,
                        );
                        assert(acc + rs[i as int] + "\n"@ =~= acc + rs[i as int] + seq!['\n']);
                    }
                },
                Option::None => {},
            }
            seen_item = true;
            proof {
                assert(node.children@[i as int].kind != FmtKind::Space);
                assert(has_item_before(node.children@, i + 1));
            }
        } else {
            out.append(children[i].as_str());
            seen_item = true;
            proof {
                assert(node.children@[i as int].kind != FmtKind::Space);
                assert(has_item_before(node.children@, i + 1));
            }
        }
        i = i + 1;
    }
    out
}

} // verus!
