//! The code-block formatter: `{ ... }`.
//!
//! An empty block collapses to `{ }`. Otherwise the braces enclose the
//! block's pieces — the code and any comments standing beside it — and the
//! tight form keeps them on one line between single spaces, while the
//! breaking form puts them one indent step in on their own lines. Breaking
//! is chosen when the code already spans lines, when a line comment is
//! among the pieces, when the block is a loop body, or when the tight
//! form's longest line reaches the limit. A block whose children are not
//! the expected bracket, whitespace, comment and code nodes is copied
//! verbatim rather than corrupted.

use vstd::prelude::*;

use crate::args::{any_has_nl, has_line_comment};
use crate::config::{indent_chars, Config};
use crate::context::reindent;
use crate::node::{text_of, FmtKind, FmtNode};
use crate::utils::max_line_len;

verus! {

/// The children have the shape a code block promises: braces, whitespace,
/// comments, and the code.
pub open spec fn code_block_shape(cs: Seq<FmtNode>) -> bool {
    forall|i: int|
        0 <= i < cs.len() ==> (#[trigger] cs[i].kind == FmtKind::LeftBrace || cs[i].kind
            == FmtKind::RightBrace || cs[i].kind == FmtKind::Space || cs[i].kind
            == FmtKind::LineComment || cs[i].kind == FmtKind::BlockComment || cs[i].kind
            == FmtKind::Code)
}

/// A child that contributes a piece between the braces: not a brace and
/// not whitespace.
pub open spec fn is_block_piece(k: FmtKind) -> bool {
    !(k == FmtKind::LeftBrace || k == FmtKind::RightBrace || k == FmtKind::Space)
}

/// Whether a piece-contributing child follows index `i`.
pub open spec fn has_later_piece(cs: Seq<FmtNode>, i: int) -> bool
    decreases cs.len() - i,
{
    if i + 1 >= cs.len() || i + 1 < 0 {
        false
    } else {
        is_block_piece(cs[i + 1].kind) || has_later_piece(cs, i + 1)
    }
}

/// The pieces between the braces among the first `k` children, one per
/// line.
pub open spec fn code_inner_upto(cs: Seq<FmtNode>, rs: Seq<Seq<char>>, k: int) -> Seq<char>
    decreases k,
{
    if k <= 0 {
        Seq::empty()
    } else {
        let acc = code_inner_upto(cs, rs, k - 1);
        let i = k - 1;
        if is_block_piece(cs[i].kind) {
            acc + rs[i] + (if has_later_piece(cs, i) {
                seq!['\n']
            } else {
                Seq::<char>::empty()
            })
        } else {
            acc
        }
    }
}

/// Everything a code block holds between its braces.
pub open spec fn code_inner_spec(node: FmtNode, rs: Seq<Seq<char>>) -> Seq<char> {
    code_inner_upto(node.children@, rs, node.children@.len() as int)
}

/// The tight form of a code block around its inner pieces.
pub open spec fn code_tight(inner: Seq<char>) -> Seq<char> {
    seq!['{', ' '] + inner + seq![' ', '}']
}

/// The breaking form of a code block around its inner pieces.
pub open spec fn code_breaking(inner: Seq<char>, ind: Seq<char>) -> Seq<char> {
    seq!['{', '\n'] + ind + reindent(inner, ind) + seq!['\n', '}']
}

/// The empty block form.
pub open spec fn code_empty_form() -> Seq<char> {
    seq!['{', ' ', '}']
}

/// There is nothing between the braces but whitespace (the code, if any,
/// holds only whitespace itself).
pub open spec fn code_block_empty(cs: Seq<FmtNode>) -> bool {
    forall|i: int|
        0 <= i < cs.len() ==> (#[trigger] cs[i].kind == FmtKind::LeftBrace || cs[i].kind
            == FmtKind::RightBrace || cs[i].kind == FmtKind::Space || (cs[i].kind == FmtKind::Code
            && crate::node::all_space(cs[i].children@)))
}

/// Whether the block must use its breaking form.
pub open spec fn code_should_break(
    node: FmtNode,
    rs: Seq<Seq<char>>,
    maxl: int,
    parent_is_loop: bool,
) -> bool {
    has_line_comment(node.children@) || any_has_nl(rs) || parent_is_loop || max_line_len(
        code_tight(code_inner_spec(node, rs)),
    ) >= maxl
}

/// What `format_code_blocks` produces.
pub open spec fn code_block_spec(
    node: FmtNode,
    rs: Seq<Seq<char>>,
    ind: Seq<char>,
    maxl: int,
    parent_is_loop: bool,
) -> Seq<char> {
    let cs = node.children@;
    if !code_block_shape(cs) {
        text_of(node)
    } else if code_block_empty(cs) {
        code_empty_form()
    } else if code_should_break(node, rs, maxl, parent_is_loop) {
        code_breaking(code_inner_spec(node, rs), ind)
    } else {
        code_tight(code_inner_spec(node, rs))
    }
}

/// The tight form: `{ `, the pieces, ` }`.
pub fn format_code_blocks_tight(inner: &str) -> (r: String)
    ensures
        r@ == code_tight(inner@),
{
    let mut out = String::new();
    out.append("{ ");
    out.append(inner);
    out.append(" }");
    proof {
        reveal_strlit("{ ");
        reveal_strlit(" }");
        assert(out@ =~= code_tight(inner@));
    }
    out
}

/// The breaking form: the opening brace, the pieces one indent step in,
/// and the closing brace back at the outer level.
pub fn format_code_blocks_breaking(inner: &str, config: &Config) -> (r: String)
    ensures
        r@ == code_breaking(inner@, indent_chars(config.indent, 1)),
{
    let ind = config.indent.get(1);
    let mut out = String::new();
    out.append("{\n");
    out.append(ind.as_str());
    let re = crate::context::reindent_text(inner, ind.as_str());
    out.append(re.as_str());
    out.append("\n}");
    proof {
        reveal_strlit("{\n");
        reveal_strlit("\n}");
        assert(out@ =~= code_breaking(inner@, indent_chars(config.indent, 1)));
    }
    out
}

/// Whether a piece-contributing child follows index `i`.
fn has_later_piece_x(children: &Vec<FmtNode>, i: usize) -> (r: bool)
    ensures
        r == has_later_piece(children@, i as int),
    decreases children@.len() - i,
{
    if i >= children.len() || i + 1 >= children.len() {
        false
    } else {
        let kd = children[i + 1].kind;
        if !(kd == FmtKind::LeftBrace || kd == FmtKind::RightBrace || kd == FmtKind::Space) {
            true
        } else {
            has_later_piece_x(children, i + 1)
        }
    }
}

/// Renders a code block: the empty form for an all-whitespace body, else
/// the tight or breaking form by the selection rule; a block with an
/// unexpected shape is copied verbatim.
pub fn format_code_blocks(
    node: &FmtNode,
    children: &Vec<String>,
    config: &Config,
    parent_is_loop: bool,
) -> (r: String)
    requires
        children@.len() == node.children@.len(),
    ensures
        r@ == code_block_spec(
            *node,
            children@.map_values(|s: String| s@),
            indent_chars(config.indent, 1),
            config.max_line_length as int,
            parent_is_loop,
        ),
{
    let ghost rs = children@.map_values(|s: String| s@);
    let n = node.children.len();

    let mut shape_ok: bool = true;
    let mut empty: bool = true;
    let mut line_comment: bool = false;
    let mut i: usize = 0;
    while i < n
        invariant
            i <= n,
            n == node.children@.len(),
            shape_ok == (forall|j: int|
                0 <= j < i ==> (#[trigger] node.children@[j].kind == FmtKind::LeftBrace
                    || node.children@[j].kind == FmtKind::RightBrace || node.children@[j].kind
                    == FmtKind::Space || node.children@[j].kind == FmtKind::LineComment
                    || node.children@[j].kind == FmtKind::BlockComment || node.children@[j].kind
                    == FmtKind::Code)),
            empty == (forall|j: int|
                0 <= j < i ==> (#[trigger] node.children@[j].kind == FmtKind::LeftBrace
                    || node.children@[j].kind == FmtKind::RightBrace || node.children@[j].kind
                    == FmtKind::Space || (node.children@[j].kind == FmtKind::Code
                    && crate::node::all_space(node.children@[j].children@)))),
            line_comment == exists|j: int|
                0 <= j < i && node.children@[j].kind == FmtKind::LineComment,
        decreases n - i,
    {
        let kd = node.children[i].kind;
        if !(kd == FmtKind::LeftBrace || kd == FmtKind::RightBrace || kd == FmtKind::Space || kd
            == FmtKind::LineComment || kd == FmtKind::BlockComment || kd == FmtKind::Code) {
            shape_ok = false;
        }
        if !(kd == FmtKind::LeftBrace || kd == FmtKind::RightBrace || kd == FmtKind::Space || (kd
            == FmtKind::Code && crate::node::all_space_x(&node.children[i].children))) {
            empty = false;
        }
        if kd == FmtKind::LineComment {
            line_comment = true;
        }
        i = i + 1;
    }
    proof {
        assert(shape_ok == code_block_shape(node.children@));
        assert(empty == code_block_empty(node.children@));
        assert(line_comment == has_line_comment(node.children@));
    }
    if !shape_ok {
        return node.text();
    }
    if empty {
        let mut out = String::new();
        out.append("{ }");
        proof {
            reveal_strlit("{ }");
            assert(out@ =~= code_empty_form());
        }
        return out;
    }

    let mut inner = String::new();
    let mut i: usize = 0;
    while i < n
        invariant
            i <= n,
            n == node.children@.len(),
            children@.len() == n,
            rs == children@.map_values(|s: String| s@),
            inner@ == code_inner_upto(node.children@, rs, i as int),
        decreases n - i,
    {
        proof {
            assert(rs[i as int] == children@[i as int]@);
        }
        let kd = node.children[i].kind;
        if !(kd == FmtKind::LeftBrace || kd == FmtKind::RightBrace || kd == FmtKind::Space) {
            inner.append(children[i].as_str());
            if has_later_piece_x(&node.children, i) {
                inner.append("\n");
                proof {
                    reveal_strlit("\n");
                    let acc = code_inner_upto(node.children@, rs, i as int);
                    assert(acc + rs[i as int] + "\n"@ =~= acc + rs[i as int] + seq!['\n']);
                }
            }
        }
        i = i + 1;
    }

    let mut child_nl: bool = false;
    let mut i: usize = 0;
    while i < n
        invariant
            i <= n,
            n == children@.len(),
            rs == children@.map_values(|s: String| s@),
            child_nl == exists|j: int| 0 <= j < i && crate::utils::has_nl(rs[j]),
        decreases n - i,
    {
        proof {
            assert(rs[i as int] == children@[i as int]@);
        }
        if crate::utils::contains_newline(children[i].as_str()) {
            child_nl = true;
        }
        i = i + 1;
    }
    proof {
        assert(child_nl == any_has_nl(rs));
    }

    if line_comment || child_nl || parent_is_loop {
        return format_code_blocks_breaking(inner.as_str(), config);
    }
    let tight = format_code_blocks_tight(inner.as_str());
    if crate::utils::max_line_length(tight.as_str()) >= config.max_line_length {
        format_code_blocks_breaking(inner.as_str(), config)
    } else {
        tight
    }
}

} // verus!
