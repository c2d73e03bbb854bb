//! The content-block formatter: `[ ... ]`.
//!
//! An empty block collapses to `[]`. Otherwise the tight form keeps the
//! markup on one line between single spaces, and the breaking form puts it
//! one indent step in on its own lines; breaking is chosen when the markup
//! already spans several lines. A block with an unexpected shape is copied
//! verbatim rather than corrupted.

use vstd::prelude::*;

use crate::args::any_has_nl;
use crate::config::{indent_chars, Config};
use crate::context::reindent;
use crate::node::{all_space, idx_of_kind, text_of, FmtKind, FmtNode};

verus! {

/// The children have the shape a content block promises: brackets,
/// whitespace and exactly the markup in between.
pub open spec fn content_block_shape(cs: Seq<FmtNode>) -> bool {
    forall|i: int|
        0 <= i < cs.len() ==> (#[trigger] cs[i].kind == FmtKind::LeftBracket || cs[i].kind
            == FmtKind::RightBracket || cs[i].kind == FmtKind::Space || cs[i].kind
            == FmtKind::Markup)
}

/// The tight form of a content block around its rendered markup.
pub open spec fn content_tight(inner: Seq<char>) -> Seq<char> {
    seq!['[', ' '] + inner + seq![' ', ']']
}

/// The breaking form of a content block around its rendered markup.
pub open spec fn content_breaking(inner: Seq<char>, ind: Seq<char>) -> Seq<char> {
    seq!['[', '\n'] + ind + reindent(inner, ind) + seq!['\n', ']']
}

/// What `format_content_blocks` produces.
pub open spec fn content_block_spec(node: FmtNode, rs: Seq<Seq<char>>, ind: Seq<char>) -> Seq<
    char,
> {
    let cs = node.children@;
    let mi = idx_of_kind(cs, FmtKind::Markup, 0);
    if !content_block_shape(cs) || mi < 0 {
        text_of(node)
    } else if all_space(cs[mi].children@) && cs[mi].text@.len() == 0 {
        seq!['[', ']']
    } else if any_has_nl(rs) {
        content_breaking(rs[mi], ind)
    } else {
        content_tight(rs[mi])
    }
}

/// The tight form: `[ `, the markup, ` ]`.
pub fn format_code_content_tight(inner: &str) -> (r: String)
    ensures
        r@ == content_tight(inner@),
{
    let mut out = String::new();
    out.append("[ ");
    out.append(inner);
    out.append(" ]");
    proof {
        reveal_strlit("[ ");
        reveal_strlit(" ]");
        assert(out@ =~= content_tight(inner@));
    }
    out
}

/// The breaking form: the opening bracket, the markup one indent step in,
/// and the closing bracket back at the outer level.
pub fn format_code_content_breaking(inner: &str, config: &Config) -> (r: String)
    ensures
        r@ == content_breaking(inner@, indent_chars(config.indent, 1)),
{
    let ind = config.indent.get(1);
    let mut out = String::new();
    out.append("[\n");
    out.append(ind.as_str());
    let re = crate::context::reindent_text(inner, ind.as_str());
    out.append(re.as_str());
    out.append("\n]");
    proof {
        reveal_strlit("[\n");
        reveal_strlit("\n]");
        assert(out@ =~= content_breaking(inner@, indent_chars(config.indent, 1)));
    }
    out
}

/// Renders a content block: `[]` when the markup is empty, else the tight
/// or breaking form; a block with an unexpected shape is copied verbatim.
pub fn format_content_blocks(node: &FmtNode, children: &Vec<String>, config: &Config) -> (r:
    String)
    requires
        children@.len() == node.children@.len(),
    ensures
        r@ == content_block_spec(
            *node,
            children@.map_values(|s: String| s@),
            indent_chars(config.indent, 1),
        ),
{
    let ghost rs = children@.map_values(|s: String| s@);
    let n = node.children.len();

    let mut shape_ok: bool = true;
    let mut i: usize = 0;
    while i < n
        invariant
            i <= n,
            n == node.children@.len(),
            shape_ok == (forall|j: int|
                0 <= j < i ==> (#[trigger] node.children@[j].kind == FmtKind::LeftBracket
                    || node.children@[j].kind == FmtKind::RightBracket || node.children@[j].kind
                    == FmtKind::Space || node.children@[j].kind == FmtKind::Markup)),
        decreases n - i,
    {
        let kd = node.children[i].kind;
        if !(kd == FmtKind::LeftBracket || kd == FmtKind::RightBracket || kd == FmtKind::Space
            || kd == FmtKind::Markup) {
            shape_ok = false;
        }
        i = i + 1;
    }
    proof {
        assert(shape_ok == content_block_shape(node.children@));
    }

    let mi = crate::node::find_kind_from(&node.children, FmtKind::Markup, 0);
    match mi {
        Option::None => node.text(),
        Option::Some(mi) => {
            if !shape_ok {
                return node.text();
            }
            proof {
                assert(rs[mi as int] == children@[mi as int]@);
            }
            if crate::node::all_space_x(&node.children[mi].children) && node.children[
                mi].text.as_str().unicode_len() == 0 {
                let mut out = String::new();
                out.append("[]");
                proof {
                    reveal_strlit("[]");
                    assert(out@ =~= seq!['[', ']']);
                }
                return out;
            }
            let mut child_nl: bool = false;
            let mut i: usize = 0;
            while i < n
                invariant
                    i <= n,
                    n == children@.len(),
                    rs == children@.map_values(|s: String| s@),
                    child_nl == exists|j: int| 0 <= j < i && crate::utils::has_nl(rs[j]),
                decreases n - i,
            {
                proof {
                    assert(rs[i as int] == children@[i as int]@);
                }
                if crate::utils::contains_newline(children[i].as_str()) {
                    child_nl = true;
                }
                i = i + 1;
            }
            proof {
                assert(child_nl == any_has_nl(rs));
            }
            if child_nl {
                format_code_content_breaking(children[mi].as_str(), config)
            } else {
                format_code_content_tight(children[mi].as_str())
            }
        },
    }
}

} // verus!
