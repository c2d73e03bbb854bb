//! The argument / parameter list formatter.
//!
//! Two renderings compete: the tight one keeps the whole list on one line
//! with `", "` between items; the breaking one puts one item per line, one
//! indent step in, with a trailing separator added where the bracket style
//! allows one. Breaking wins when a child already spans several lines, when
//! the list holds a line comment, or when the tight rendering's longest
//! line reaches the configured limit — except that a list of at most one
//! item stays tight.

use vstd::prelude::*;

use crate::config::{indent_chars, Config};
use crate::context::reindent;
use crate::node::{next_skipping, spec_has_later_comma, FmtKind, FmtNode};
use crate::utils::{has_nl, last_line_len, max_line_len};

verus! {

/// Whether a child counts as an item of the list (not punctuation,
/// whitespace or a comment).
pub open spec fn is_arg_item(k: FmtKind) -> bool {
    !(k == FmtKind::Comma || k == FmtKind::Space || k == FmtKind::LeftParen || k
        == FmtKind::RightParen || k == FmtKind::LineComment || k == FmtKind::BlockComment)
}

/// The number of items among the children.
pub open spec fn count_items(cs: Seq<FmtNode>) -> nat
    decreases cs.len(),
{
    if cs.len() == 0 {
        0
    } else {
        count_items(cs.drop_last()) + if is_arg_item(cs.last().kind) {
            1nat
        } else {
            0nat
        }
    }
}

/// A separator at `i` stands directly before the closing bracket, only
/// whitespace between.
pub open spec fn is_trailing_at(cs: Seq<FmtNode>, i: int) -> bool {
    let j = next_skipping(cs, i, false);
    j >= 0 && cs[j].kind == FmtKind::RightParen
}

/// A separator at `i` stands before the closing bracket, only whitespace
/// and comments between.
pub open spec fn is_trailing_skip_comments(cs: Seq<FmtNode>, i: int) -> bool {
    let j = next_skipping(cs, i, true);
    j >= 0 && cs[j].kind == FmtKind::RightParen
}

/// The single trailing separator of a one-element sequence is significant:
/// without it the construct would be a parenthesized expression.
pub open spec fn keeps_single_trailer(pk: FmtKind, cs: Seq<FmtNode>) -> bool {
    pk == FmtKind::Array && count_items(cs) == 1
}

/// The tight rendering of the first `k` children: everything on one line,
/// `", "` between items, whitespace dropped, and a trailing separator
/// dropped unless it disambiguates a one-element sequence.
pub open spec fn args_tight_upto(pk: FmtKind, cs: Seq<FmtNode>, rs: Seq<Seq<char>>, k: int) -> Seq<
    char,
>
    decreases k,
{
    if k <= 0 {
        Seq::empty()
    } else {
        let acc = args_tight_upto(pk, cs, rs, k - 1);
        let i = k - 1;
        let kd = cs[i].kind;
        if cs[i].preserve {
            acc + rs[i]
        } else if kd == FmtKind::Space {
            acc
        } else if kd == FmtKind::Comma {
            if is_trailing_at(cs, i) {
                if keeps_single_trailer(pk, cs) {
                    acc + seq![',']
                } else {
                    acc
                }
            } else {
                acc + rs[i] + seq![' ']
            }
        } else {
            acc + rs[i]
        }
    }
}

/// The whole tight rendering of an argument list.
pub open spec fn args_tight_spec(node: FmtNode, rs: Seq<Seq<char>>) -> Seq<char> {
    args_tight_upto(node.kind, node.children@, rs, node.children@.len() as int)
}

/// The breaking rendering of the first `k` children, with the running
/// state: the text, how many items sit on the current line, and whether a
/// trailing separator is still owed.
pub open spec fn args_breaking_upto(
    pk: FmtKind,
    cs: Seq<FmtNode>,
    rs: Seq<Seq<char>>,
    ind: Seq<char>,
    pack: bool,
    k: int,
) -> (Seq<char>, int, bool)
    decreases k,
{
    if k <= 0 {
        (Seq::empty(), 0int, pk != FmtKind::ParamsLikeParenthesized)
    } else {
        let (acc, consec, missing) = args_breaking_upto(pk, cs, rs, ind, pack, k - 1);
        let i = k - 1;
        let kd = cs[i].kind;
        if cs[i].preserve {
            (acc + rs[i], consec, missing)
        } else if kd == FmtKind::LeftParen {
            (acc + rs[i] + seq!['\n'] + ind, consec, missing)
        } else if kd == FmtKind::RightParen {
            if pk == FmtKind::ParamsLikeParenthesized {
                (acc + seq!['\n'] + rs[i], consec, missing)
            } else {
                (acc + rs[i], consec, missing)
            }
        } else if kd == FmtKind::Space {
            (acc, consec, missing)
        } else if kd == FmtKind::LineComment || kd == FmtKind::BlockComment {
            (acc + reindent(rs[i], ind) + seq!['\n'] + ind, 0int, missing)
        } else if kd == FmtKind::Comma {
            let is_last_comma = !spec_has_later_comma(cs, i);
            let is_trailing = is_trailing_skip_comments(cs, i);
            if is_last_comma && is_trailing {
                (acc + rs[i] + seq!['\n'], consec, false)
            } else {
                let owed = is_last_comma && !is_trailing;
                if !pack || consec >= 3 || has_nl(rs[i]) || last_line_len(acc) + 2 >= 10 {
                    (acc + rs[i] + seq!['\n'] + ind, 0int, owed)
                } else {
                    (acc + rs[i] + seq![' '], consec + 1, owed)
                }
            }
        } else {
            let is_last = ({
                let j = next_skipping(cs, i, true);
                j >= 0 && cs[j].kind == FmtKind::RightParen
            });
            if is_last && missing {
                (acc + reindent(rs[i], ind) + seq![',', '\n'], consec, missing)
            } else {
                (acc + reindent(rs[i], ind), consec, missing)
            }
        }
    }
}

/// The whole breaking rendering of an argument list.
pub open spec fn args_breaking_spec(node: FmtNode, rs: Seq<Seq<char>>, ind: Seq<char>, pack: bool)
    -> Seq<char> {
    args_breaking_upto(node.kind, node.children@, rs, ind, pack, node.children@.len() as int).0
}

/// Whether the children hold a line comment.
pub open spec fn has_line_comment(cs: Seq<FmtNode>) -> bool {
    exists|i: int| 0 <= i < cs.len() && cs[i].kind == FmtKind::LineComment
}

/// Whether some rendered child spans several lines.
pub open spec fn any_has_nl(rs: Seq<Seq<char>>) -> bool {
    exists|i: int| 0 <= i < rs.len() && has_nl(rs[i])
}

/// The selection rule of an argument list: break when a rendered child
/// already spans lines or a line comment is among the children; keep a list
/// of at most one item tight otherwise; else break exactly when the tight
/// rendering's longest line reaches the limit.
pub open spec fn args_should_break(node: FmtNode, rs: Seq<Seq<char>>, maxl: int) -> bool {
    if any_has_nl(rs) || has_line_comment(node.children@) {
        true
    } else if count_items(node.children@) <= 1 {
        false
    } else {
        max_line_len(args_tight_spec(node, rs)) >= maxl
    }
}

/// What `format_args` produces.
pub open spec fn args_format_spec(
    node: FmtNode,
    rs: Seq<Seq<char>>,
    ind: Seq<char>,
    pack: bool,
    maxl: int,
) -> Seq<char> {
    if args_should_break(node, rs, maxl) {
        args_breaking_spec(node, rs, ind, pack)
    } else {
        args_tight_spec(node, rs)
    }
}

/// Line-length pressure: for an argument list of two or more items whose
/// tight rendering's longest line reaches the limit, the breaking rendering
/// is what the formatter emits.
pub proof fn lemma_line_length_pressure(
    node: FmtNode,
    rs: Seq<Seq<char>>,
    ind: Seq<char>,
    pack: bool,
    maxl: int,
)
    requires
        count_items(node.children@) >= 2,
        max_line_len(args_tight_spec(node, rs)) >= maxl,
    ensures
        args_format_spec(node, rs, ind, pack, maxl) == args_breaking_spec(node, rs, ind, pack),
{
}

/// The tight rendering: one line, `", "` between items; a trailing
/// separator survives only on a one-element sequence.
pub fn format_args_tight(node: &FmtNode, children: &Vec<String>) -> (r: String)
    requires
        children@.len() == node.children@.len(),
    ensures
        r@ == args_tight_spec(*node, children@.map_values(|s: String| s@)),
{
    let ghost rs = children@.map_values(|s: String| s@);
    let keep = node.kind == FmtKind::Array && {
        let c = count_items_x(&node.children);
        c == 1
    };
    let n = node.children.len();
    let mut out = String::new();
    let mut i: usize = 0;
    while i < n
        invariant
            i <= n,
            n == node.children@.len(),
            rs == children@.map_values(|s: String| s@),
            children@.len() == n,
            keep == keeps_single_trailer(node.kind, node.children@),
            out@ == args_tight_upto(node.kind, node.children@, rs, i as int),
        decreases n - i,
    {
        let kd = node.children[i].kind;
        proof {
            assert(rs[i as int] == children@[i as int]@);
        }
        if node.children[i].preserve {
            out.append(children[i].as_str());
        } else if kd == FmtKind::Space {
            // dropped
        } else if kd == FmtKind::Comma {
            if crate::node::next_is_ignoring(&node.children, i, FmtKind::RightParen, false) {
                if keep {
                    out.append(",");
                    proof {
                        reveal_strlit(",");
                        assert(args_tight_upto(node.kind, node.children@, rs, i as int) + ","@
                            =~= args_tight_upto(node.kind, node.children@, rs, i as int) + seq![
                            ',',
                        ]);
                    }
                }
            } else {
                out.append(children[i].as_str());
                out.append(" ");
                proof {
                    reveal_strlit(" ");
                    assert(args_tight_upto(node.kind, node.children@, rs, i as int) + rs[i as int]
                        + " "@ =~= args_tight_upto(node.kind, node.children@, rs, i as int)
                        + rs[i as int] + seq![' ']);
                }
            }
        } else {
            out.append(children[i].as_str());
        }
        i = i + 1;
    }
    out
}

/// The number of items among the children.
pub fn count_items_x(children: &Vec<FmtNode>) -> (r: u64)
    ensures
        r as int == count_items(children@),
{
    let n = children.len();
    let mut c: u64 = 0;
    let mut i: usize = 0;
    proof {
        assert(children@.subrange(0, 0) =~= Seq::<FmtNode>::empty());
    }
    while i < n
        invariant
            i <= n,
            n == children@.len(),
            c as int == count_items(children@.subrange(0, i as int)),
            c <= i,
        decreases n - i,
    {
        let kd = children[i].kind;
        proof {
            assert(children@.subrange(0, i + 1).drop_last() =~= children@.subrange(0, i as int));
            assert(children@.subrange(0, i + 1).last() == children@[i as int]);
        }
        if !(kd == FmtKind::Comma || kd == FmtKind::Space || kd == FmtKind::LeftParen || kd
            == FmtKind::RightParen || kd == FmtKind::LineComment || kd == FmtKind::BlockComment) {
            c = c + 1;
        }
        i = i + 1;
    }
    proof {
        assert(children@.subrange(0, n as int) =~= children@);
    }
    c
}

/// The breaking rendering: opening bracket, then one item per line one
/// indent step in, a separator owed to the last item added, and the closing
/// bracket back at the outer level.
pub fn format_args_breaking(node: &FmtNode, children: &Vec<String>, config: &Config) -> (r: String)
    requires
        children@.len() == node.children@.len(),
    ensures
        r@ == args_breaking_spec(
            *node,
            children@.map_values(|s: String| s@),
            indent_chars(config.indent, 1),
            config.pack_consecutive_args,
        ),
{
    let ghost rs = children@.map_values(|s: String| s@);
    let ind = config.indent.get(1);
    proof {
        assert(indent_chars(config.indent, (1usize) as nat) == indent_chars(config.indent, 1));
    }
    let pack = config.pack_consecutive_args;
    let parens = node.kind == FmtKind::ParamsLikeParenthesized;
    let n = node.children.len();
    let mut out = String::new();
    let mut consec: u64 = 0;
    let mut missing: bool = !parens;
    let mut i: usize = 0;
    while i < n
        invariant
            i <= n,
            n == node.children@.len(),
            rs == children@.map_values(|s: String| s@),
            children@.len() == n,
            ind@ == indent_chars(config.indent, 1),
            pack == config.pack_consecutive_args,
            parens == (node.kind == FmtKind::ParamsLikeParenthesized),
            0 <= consec <= 3,
            ({
                let st = args_breaking_upto(node.kind, node.children@, rs, ind@, pack, i as int);
                out@ == st.0 && consec as int == st.1 && missing == st.2
            }),
        decreases n - i,
    {
        let kd = node.children[i].kind;
        proof {
            assert(rs[i as int] == children@[i as int]@);
        }
        if node.children[i].preserve {
            out.append(children[i].as_str());
        } else if kd == FmtKind::LeftParen {
            out.append(children[i].as_str());
            out.append("\n");
            out.append(ind.as_str());
            proof {
                reveal_strlit("\n");
                assert(args_breaking_upto(node.kind, node.children@, rs, ind@, pack, i as int).0
                    + rs[i as int] + "\n"@ + ind@ =~= args_breaking_upto(
                    node.kind,
                    node.children@,
                    rs,
                    ind@,
                    pack,
                    i as int,
                ).0 + rs[i as int] + seq!['\n'] + ind@);
            }
        } else if kd == FmtKind::RightParen {
            if parens {
                out.append("\n");
                proof {
                    reveal_strlit("\n");
                    assert(args_breaking_upto(node.kind, node.children@, rs, ind@, pack, i as int).0
                        + "\n"@ + rs[i as int] =~= args_breaking_upto(
                        node.kind,
                        node.children@,
                        rs,
                        ind@,
                        pack,
                        i as int,
                    ).0 + seq!['\n'] + rs[i as int]);
                }
            }
            out.append(children[i].as_str());
        } else if kd == FmtKind::Space {
            // dropped
        } else if kd == FmtKind::LineComment || kd == FmtKind::BlockComment {
            let re = crate::context::reindent_text(children[i].as_str(), ind.as_str());
            out.append(re.as_str());
            out.append("\n");
            out.append(ind.as_str());
            consec = 0;
            proof {
                reveal_strlit("\n");
                let base = args_breaking_upto(node.kind, node.children@, rs, ind@, pack, i as int).0
                    + reindent(rs[i as int], ind@);
                assert(base + "\n"@ + ind@ =~= base + seq!['\n'] + ind@);
            }
        } else if kd == FmtKind::Comma {
            let is_last_comma = !crate::node::has_later_comma(&node.children, i);
            let is_trailing = crate::node::next_is_ignoring(
                &node.children,
                i,
                FmtKind::RightParen,
                true,
            );
            if is_last_comma && is_trailing {
                out.append(children[i].as_str());
                out.append("\n");
                missing = false;
                proof {
                    reveal_strlit("\n");
                    let base = args_breaking_upto(
                        node.kind,
                        node.children@,
                        rs,
                        ind@,
                        pack,
                        i as int,
                    ).0 + rs[i as int];
                    assert(base + "\n"@ =~= base + seq!['\n']);
                }
            } else {
                let owed = is_last_comma && !is_trailing;
                let line = crate::utils::last_line_length(out.as_str());
                let wide = line >= 8;
                if !pack || consec >= 3 || crate::utils::contains_newline(children[i].as_str())
                    || wide {
                    out.append(children[i].as_str());
                    out.append("\n");
                    out.append(ind.as_str());
                    consec = 0;
                    proof {
                        reveal_strlit("\n");
                        let base = args_breaking_upto(
                            node.kind,
                            node.children@,
                            rs,
                            ind@,
                            pack,
                            i as int,
                        ).0 + rs[i as int];
                        assert(base + "\n"@ + ind@ =~= base + seq!['\n'] + ind@);
                    }
                } else {
                    out.append(children[i].as_str());
                    out.append(" ");
                    consec = consec + 1;
                    proof {
                        reveal_strlit(" ");
                        let base = args_breaking_upto(
                            node.kind,
                            node.children@,
                            rs,
                            ind@,
                            pack,
                            i as int,
                        ).0 + rs[i as int];
                        assert(base + " "@ =~= base + seq![' ']);
                    }
                }
                missing = owed;
            }
        } else {
            let is_last = crate::node::next_is_ignoring(
                &node.children,
                i,
                FmtKind::RightParen,
                true,
            );
            let re = crate::context::reindent_text(children[i].as_str(), ind.as_str());
            out.append(re.as_str());
            if is_last && missing {
                out.append(",\n");
                proof {
                    reveal_strlit(",\n");
                    let base = args_breaking_upto(
                        node.kind,
                        node.children@,
                        rs,
                        ind@,
                        pack,
                        i as int,
                    ).0 + reindent(rs[i as int], ind@);
                    assert(base + ",\n"@ =~= base + seq![',', '\n']);
                }
            }
        }
        i = i + 1;
    }
    out
}

/// Renders an argument or parameter list: the tight rendering unless the
/// selection rule asks for the breaking one.
pub fn format_args(node: &FmtNode, children: &Vec<String>, config: &Config) -> (r: String)
    requires
        children@.len() == node.children@.len(),
    ensures
        r@ == args_format_spec(
            *node,
            children@.map_values(|s: String| s@),
            indent_chars(config.indent, 1),
            config.pack_consecutive_args,
            config.max_line_length as int,
        ),
{
    let ghost rs = children@.map_values(|s: String| s@);
    let n = children.len();

    let mut child_nl: bool = false;
    let mut i: usize = 0;
    while i < n
        invariant
            i <= n,
            n == children@.len(),
            rs == children@.map_values(|s: String| s@),
            child_nl == exists|j: int| 0 <= j < i && has_nl(rs[j]),
        decreases n - i,
    {
        proof {
            assert(rs[i as int] == children@[i as int]@);
        }
        if crate::utils::contains_newline(children[i].as_str()) {
            child_nl = true;
        }
        i = i + 1;
    }
    proof {
        assert(child_nl == any_has_nl(rs));
    }

    let mut line_comment: bool = false;
    let mut i: usize = 0;
    while i < n
        invariant
            i <= n,
            n == node.children@.len(),
            line_comment == exists|j: int|
                0 <= j < i && node.children@[j].kind == FmtKind::LineComment,
        decreases n - i,
    {
        if node.children[i].kind == FmtKind::LineComment {
            line_comment = true;
        }
        i = i + 1;
    }
    proof {
        assert(line_comment == has_line_comment(node.children@));
    }

    if child_nl || line_comment {
        return format_args_breaking(node, children, config);
    }
    let items = count_items_x(&node.children);
    if items <= 1 {
        return format_args_tight(node, children);
    }
    let tight = format_args_tight(node, children);
    let width = crate::utils::max_line_length(tight.as_str());
    if width >= config.max_line_length {
        format_args_breaking(node, children, config)
    } else {
        tight
    }
}

} // verus!
