//! A pretty-printer for Typst markup: it consumes a parsed syntax tree and
//! re-emits canonically formatted text, rewriting whitespace, indentation and
//! line breaks while preserving the document's content. Regions bounded by
//! `format:off` / `format:on` comment directives are copied verbatim.

use vstd::prelude::*;

pub mod args;
pub mod binary;
pub mod code_blocks;
pub mod compare;
pub mod config;
pub mod content_blocks;
pub mod context;
pub mod convert;
pub mod markup;
pub mod math;
pub mod node;
pub mod preserve_pass;
pub mod strconv;
pub mod table;
pub mod utils;
pub mod visits;
pub mod writer;

verus! {

use crate::config::Config;
use crate::convert::{map_rel, parsed, source_fuel};
use crate::node::{text_of, FmtKind, FmtNode};
use crate::preserve_pass::pres_rel;
use crate::utils::{no_space_before_newline, strip_trailing_spaces};
use crate::visits::render_spec;

/// Renders a formatting tree and applies the final cleanup: the result is
/// exactly the spec-level rendering of the tree with the spaces that ended
/// up directly before a line break removed. The cleanup reaches preserved
/// text too: a preserved subtree comes out byte for byte except for spaces
/// standing directly before a line break, which the cleanup strips
/// everywhere.
pub fn format_tree(root: &FmtNode, config: &Config) -> (r: String)
    ensures
        r@ == strip_trailing_spaces(render_spec(*root, *config, FmtKind::Markup)),
        no_space_before_newline(r@),
        root.preserve || root.kind == FmtKind::Preserve ==> r@ == strip_trailing_spaces(
            text_of(*root),
        ),
{
    let rendered = crate::visits::render_node(root, config, FmtKind::Markup);
    crate::utils::remove_trailing_spaces(rendered.as_str())
}

/// Formats a Typst document: parses it, runs the preserve pass, renders the
/// tree bottom-up and applies the final cleanup. The result is pinned end
/// to end: it is the cleaned spec-level rendering of the preserve-tagged
/// image of the parsed tree. Total over any input (the parser accepts
/// anything, turning unknown text into error nodes that pass through
/// verbatim); the result never has a space directly before a line break.
pub fn format(s: &str, config: Config) -> (r: String)
    ensures
        no_space_before_newline(r@),
        exists|t: FmtNode, u: FmtNode|
            {
                &&& map_rel(parsed(s@), t, source_fuel(s))
                &&& #[trigger] pres_rel(t, u, false)
                &&& r@ == strip_trailing_spaces(render_spec(u, config, FmtKind::Markup))
            },
{
    let mut root = crate::convert::source_tree(s);
    let ghost mapped = root;
    let _ = crate::preserve_pass::preserve_pass(&mut root);
    let ghost tagged = root;
    let r = format_tree(&root, &config);
    proof {
        assert(map_rel(parsed(s@), mapped, source_fuel(s)) && pres_rel(mapped, tagged, false) && r@
            == strip_trailing_spaces(render_spec(tagged, config, FmtKind::Markup)));
    }
    r
}

} // verus!
