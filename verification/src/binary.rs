//! The binary-expression formatter.
//!
//! The tight form always surrounds the operator with single spaces; a
//! breaking form (a line break and one indent step before each operator)
//! exists only for parenthesized expressions, where it is chosen when the
//! tight form's longest line reaches the limit.

use vstd::prelude::*;

use crate::config::{indent_chars, Config};
use crate::context::reindent;
use crate::node::{FmtKind, FmtNode};
use crate::utils::max_line_len;

verus! {

/// The tight form of the first `k` children: operands verbatim, one space
/// around each operator, `not` glued to a following `in`.
pub open spec fn bin_tight_upto(cs: Seq<FmtNode>, rs: Seq<Seq<char>>, k: int) -> Seq<char>
    decreases k,
{
    if k <= 0 {
        Seq::empty()
    } else {
        let acc = bin_tight_upto(cs, rs, k - 1);
        let i = k - 1;
        let kd = cs[i].kind;
        if cs[i].preserve {
            acc + rs[i]
        } else if kd == FmtKind::Space {
            acc
        } else if kd == FmtKind::BinOpTok {
            acc + seq![' '] + rs[i] + seq![' ']
        } else if kd == FmtKind::NotTok {
            acc + seq![' '] + rs[i]
        } else {
            acc + rs[i]
        }
    }
}

/// The whole tight form of a binary expression.
pub open spec fn bin_tight_spec(node: FmtNode, rs: Seq<Seq<char>>) -> Seq<char> {
    bin_tight_upto(node.children@, rs, node.children@.len() as int)
}

/// The breaking form of the first `k` children: a line break and one indent
/// step before each operator.
pub open spec fn bin_breaking_upto(cs: Seq<FmtNode>, rs: Seq<Seq<char>>, ind: Seq<char>, k: int)
    -> Seq<char>
    decreases k,
{
    if k <= 0 {
        Seq::empty()
    } else {
        let acc = bin_breaking_upto(cs, rs, ind, k - 1);
        let i = k - 1;
        let kd = cs[i].kind;
        if cs[i].preserve {
            acc + rs[i]
        } else if kd == FmtKind::Space {
            acc
        } else if kd == FmtKind::BinOpTok {
            acc + seq!['\n'] + ind + rs[i] + seq![' ']
        } else {
            acc + reindent(rs[i], ind)
        }
    }
}

/// The whole breaking form of a binary expression.
pub open spec fn bin_breaking_spec(node: FmtNode, rs: Seq<Seq<char>>, ind: Seq<char>) -> Seq<
    char,
> {
    bin_breaking_upto(node.children@, rs, ind, node.children@.len() as int)
}

/// What `format_bin_left_assoc` produces: the tight form, except for a
/// parenthesized expression whose tight form's longest line reaches the
/// limit.
pub open spec fn bin_format_spec(
    node: FmtNode,
    rs: Seq<Seq<char>>,
    ind: Seq<char>,
    maxl: int,
    parenthesized: bool,
) -> Seq<char> {
    if parenthesized && max_line_len(bin_tight_spec(node, rs)) >= maxl {
        bin_breaking_spec(node, rs, ind)
    } else {
        bin_tight_spec(node, rs)
    }
}

/// The tight form: single spaces around operators.
pub fn format_bin_left_assoc_tight(node: &FmtNode, children: &Vec<String>) -> (r: String)
    requires
        children@.len() == node.children@.len(),
    ensures
        r@ == bin_tight_spec(*node, children@.map_values(|s: String| s@)),
{
    let ghost rs = children@.map_values(|s: String| s@);
    let n = node.children.len();
    let mut out = String::new();
    let mut i: usize = 0;
    while i < n
        invariant
            i <= n,
            n == node.children@.len(),
            children@.len() == n,
            rs == children@.map_values(|s: String| s@),
            out@ == bin_tight_upto(node.children@, rs, i as int),
        decreases n - i,
    {
        let kd = node.children[i].kind;
        proof {
            assert(rs[i as int] == children@[i as int]@);
        }
        if node.children[i].preserve {
            out.append(children[i].as_str());
        } else if kd == FmtKind::Space {
            // dropped
        } else if kd == FmtKind::BinOpTok {
            out.append(" ");
            out.append(children[i].as_str());
            out.append(" ");
            proof {
                reveal_strlit(" ");
                assert(bin_tight_upto(node.children@, rs, i as int) + " "@ + rs[i as int] + " "@
                    =~= bin_tight_upto(node.children@, rs, i as int) + seq![' '] + rs[i as int]
                    + seq![' ']);
            }
        } else if kd == FmtKind::NotTok {
            out.append(" ");
            out.append(children[i].as_str());
            proof {
                reveal_strlit(" ");
                assert(bin_tight_upto(node.children@, rs, i as int) + " "@ + rs[i as int]
                    =~= bin_tight_upto(node.children@, rs, i as int) + seq![' '] + rs[i as int]);
            }
        } else {
            out.append(children[i].as_str());
        }
        i = i + 1;
    }
    out
}

/// The breaking form: a line break and one indent step before each
/// operator.
pub fn format_bin_left_assoc_breaking(node: &FmtNode, children: &Vec<String>, config: &Config) -> (
    r: String)
    requires
        children@.len() == node.children@.len(),
    ensures
        r@ == bin_breaking_spec(
            *node,
            children@.map_values(|s: String| s@),
            indent_chars(config.indent, 1),
        ),
{
    let ghost rs = children@.map_values(|s: String| s@);
    let ind = config.indent.get(1);
    proof {
        assert(indent_chars(config.indent, (1usize) as nat) == indent_chars(config.indent, 1));
    }
    let n = node.children.len();
    let mut out = String::new();
    let mut i: usize = 0;
    while i < n
        invariant
            i <= n,
            n == node.children@.len(),
            children@.len() == n,
            rs == children@.map_values(|s: String| s@),
            ind@ == indent_chars(config.indent, 1),
            out@ == bin_breaking_upto(node.children@, rs, ind@, i as int),
        decreases n - i,
    {
        let kd = node.children[i].kind;
        proof {
            assert(rs[i as int] == children@[i as int]@);
        }
        if node.children[i].preserve {
            out.append(children[i].as_str());
        } else if kd == FmtKind::Space {
            // dropped
        } else if kd == FmtKind::BinOpTok {
            out.append("\n");
            out.append(ind.as_str());
            out.append(children[i].as_str());
            out.append(" ");
            proof {
                reveal_strlit("\n");
                reveal_strlit(" ");
                assert(bin_breaking_upto(node.children@, rs, ind@, i as int) + "\n"@ + ind@
                    + rs[i as int] + " "@ =~= bin_breaking_upto(node.children@, rs, ind@, i as int)
                    + seq!['\n'] + ind@ + rs[i as int] + seq![' ']);
            }
        } else {
            let re = crate::context::reindent_text(children[i].as_str(), ind.as_str());
            out.append(re.as_str());
        }
        i = i + 1;
    }
    out
}

/// Renders a binary expression: the tight form, unless the expression is
/// parenthesized and its tight form's longest line reaches the limit.
pub fn format_bin_left_assoc(
    node: &FmtNode,
    children: &Vec<String>,
    config: &Config,
    parenthesized: bool,
) -> (r: String)
    requires
        children@.len() == node.children@.len(),
    ensures
        r@ == bin_format_spec(
            *node,
            children@.map_values(|s: String| s@),
            indent_chars(config.indent, 1),
            config.max_line_length as int,
            parenthesized,
        ),
{
    let tight = format_bin_left_assoc_tight(node, children);
    if parenthesized && crate::utils::max_line_length(tight.as_str())
        >= config.max_line_length {
        format_bin_left_assoc_breaking(node, children, config)
    } else {
        tight
    }
}

} // verus!
