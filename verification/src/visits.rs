//! The dispatcher: a bottom-up visitor over the formatting tree.
//!
//! Every node's children are rendered first; a kind-specific rule then
//! combines the rendered pieces. A preserved subtree short-circuits all of
//! it and is copied verbatim.

use vstd::prelude::*;

use crate::args::{args_format_spec, count_items, format_args};
use crate::binary::bin_format_spec;
use crate::code_blocks::code_block_spec;
use crate::config::indent_chars;
use crate::content_blocks::content_block_spec;
use crate::markup::markup_spec;
use crate::math::{eq_spec, math_fmt_spec};
use crate::node::idx_of_kind;
use crate::table::{spec_table_columns, table_spec};
use crate::binary::format_bin_left_assoc;
use crate::code_blocks::format_code_blocks;
use crate::config::Config;
use crate::content_blocks::format_content_blocks;
use crate::markup::format_markup;
use crate::math::{format_equation, format_math};
use crate::node::{next_skipping, text_of, FmtKind, FmtNode};
use crate::utils::has_nl;

verus! {

/// The rendering of the first `k` children of a node with no dedicated
/// rule: pieces in order, whitespace becoming one space, or one line break
/// when it held one.
pub open spec fn join_upto(cs: Seq<FmtNode>, rs: Seq<Seq<char>>, k: int) -> Seq<char>
    decreases k,
{
    if k <= 0 {
        Seq::empty()
    } else {
        let acc = join_upto(cs, rs, k - 1);
        let i = k - 1;
        if cs[i].preserve {
            acc + rs[i]
        } else if cs[i].kind == FmtKind::Space {
            acc + (if has_nl(cs[i].text@) {
                seq!['\n']
            } else {
                seq![' ']
            })
        } else {
            acc + rs[i]
        }
    }
}

/// The rendering of the first `k` children of a construct kept on one line
/// (a conditional chain): pieces in order, whitespace becoming one space.
pub open spec fn chain_upto(cs: Seq<FmtNode>, rs: Seq<Seq<char>>, k: int) -> Seq<char>
    decreases k,
{
    if k <= 0 {
        Seq::empty()
    } else {
        let acc = chain_upto(cs, rs, k - 1);
        let i = k - 1;
        if cs[i].preserve {
            acc + rs[i]
        } else if cs[i].kind == FmtKind::Space {
            acc + seq![' ']
        } else {
            acc + rs[i]
        }
    }
}

/// The rendering of the first `k` children of a named or keyed item: the
/// separator glues to the name and takes one space after it.
pub open spec fn named_upto(cs: Seq<FmtNode>, rs: Seq<Seq<char>>, k: int) -> Seq<char>
    decreases k,
{
    if k <= 0 {
        Seq::empty()
    } else {
        let acc = named_upto(cs, rs, k - 1);
        let i = k - 1;
        if cs[i].preserve {
            acc + rs[i]
        } else if cs[i].kind == FmtKind::Space {
            acc
        } else if cs[i].kind == FmtKind::Colon {
            acc + rs[i] + seq![' ']
        } else {
            acc + rs[i]
        }
    }
}

/// The rendering of the first `k` children of a code run: one statement per
/// line, whitespace dropped.
pub open spec fn code_upto(cs: Seq<FmtNode>, rs: Seq<Seq<char>>, k: int) -> Seq<char>
    decreases k,
{
    if k <= 0 {
        Seq::empty()
    } else {
        let acc = code_upto(cs, rs, k - 1);
        let i = k - 1;
        if cs[i].preserve {
            acc + rs[i]
        } else if cs[i].kind == FmtKind::Space || cs[i].kind == FmtKind::Parbreak {
            acc
        } else {
            acc + rs[i] + (if next_skipping(cs, i, false) >= 0 {
                seq!['\n']
            } else {
                Seq::<char>::empty()
            })
        }
    }
}

/// Renders children with the default rule: whitespace normalised to one
/// space or one line break, everything else in order.
pub fn join_default(node: &FmtNode, children: &Vec<String>) -> (r: String)
    requires
        children@.len() == node.children@.len(),
    ensures
        r@ == join_upto(
            node.children@,
            children@.map_values(|s: String| s@),
            node.children@.len() as int,
        ),
{
    let ghost rs = children@.map_values(|s: String| s@);
    let n = node.children.len();
    let mut out = String::new();
    let mut i: usize = 0;
    while i < n
        invariant
            i <= n,
            n == node.children@.len(),
            children@.len() == n,
            rs == children@.map_values(|s: String| s@),
            out@ == join_upto(node.children@, rs, i as int),
        decreases n - i,
    {
        proof {
            assert(rs[i as int] == children@[i as int]@);
        }
        if node.children[i].preserve {
            out.append(children[i].as_str());
        } else if node.children[i].kind == FmtKind::Space {
            if crate::utils::contains_newline(node.children[i].text.as_str()) {
                out.append("\n");
                proof {
                    reveal_strlit("\n");
                    let acc = join_upto(node.children@, rs, i as int);
                    assert(acc + "\n"@ =~= acc + seq!['\n']);
                }
            } else {
                out.append(" ");
                proof {
                    reveal_strlit(" ");
                    let acc = join_upto(node.children@, rs, i as int);
                    assert(acc + " "@ =~= acc + seq![' ']);
                }
            }
        } else {
            out.append(children[i].as_str());
        }
        i = i + 1;
    }
    out
}

/// Renders an `if` / `else if` / `else` chain as one unit: every branch
/// keyword one space from what follows it, however deep the chain.
pub fn join_chain(node: &FmtNode, children: &Vec<String>) -> (r: String)
    requires
        children@.len() == node.children@.len(),
    ensures
        r@ == chain_upto(
            node.children@,
            children@.map_values(|s: String| s@),
            node.children@.len() as int,
        ),
{
    let ghost rs = children@.map_values(|s: String| s@);
    let n = node.children.len();
    let mut out = String::new();
    let mut i: usize = 0;
    while i < n
        invariant
            i <= n,
            n == node.children@.len(),
            children@.len() == n,
            rs == children@.map_values(|s: String| s@),
            out@ == chain_upto(node.children@, rs, i as int),
        decreases n - i,
    {
        proof {
            assert(rs[i as int] == children@[i as int]@);
        }
        if node.children[i].preserve {
            out.append(children[i].as_str());
        } else if node.children[i].kind == FmtKind::Space {
            out.append(" ");
            proof {
                reveal_strlit(" ");
                let acc = chain_upto(node.children@, rs, i as int);
                assert(acc + " "@ =~= acc + seq![' ']);
            }
        } else {
            out.append(children[i].as_str());
        }
        i = i + 1;
    }
    out
}

/// Renders a named or keyed item: no space before the separator, one space
/// after it.
pub fn format_named(node: &FmtNode, children: &Vec<String>) -> (r: String)
    requires
        children@.len() == node.children@.len(),
    ensures
        r@ == named_upto(
            node.children@,
            children@.map_values(|s: String| s@),
            node.children@.len() as int,
        ),
{
    let ghost rs = children@.map_values(|s: String| s@);
    let n = node.children.len();
    let mut out = String::new();
    let mut i: usize = 0;
    while i < n
        invariant
            i <= n,
            n == node.children@.len(),
            children@.len() == n,
            rs == children@.map_values(|s: String| s@),
            out@ == named_upto(node.children@, rs, i as int),
        decreases n - i,
    {
        proof {
            assert(rs[i as int] == children@[i as int]@);
        }
        let kd = node.children[i].kind;
        if node.children[i].preserve {
            out.append(children[i].as_str());
        } else if kd == FmtKind::Space {
            // dropped
        } else if kd == FmtKind::Colon {
            out.append(children[i].as_str());
            out.append(" ");
            proof {
                reveal_strlit(" ");
                let acc = named_upto(node.children@, rs, i as int);
                assert(acc + rs[i as int] + " "@ =~= acc + rs[i as int] + seq![' ']);
            }
        } else {
            out.append(children[i].as_str());
        }
        i = i + 1;
    }
    out
}

/// Renders a code run: one statement per line, whitespace dropped.
pub fn format_code(node: &FmtNode, children: &Vec<String>) -> (r: String)
    requires
        children@.len() == node.children@.len(),
    ensures
        r@ == code_upto(
            node.children@,
            children@.map_values(|s: String| s@),
            node.children@.len() as int,
        ),
{
    let ghost rs = children@.map_values(|s: String| s@);
    let n = node.children.len();
    let mut out = String::new();
    let mut i: usize = 0;
    while i < n
        invariant
            i <= n,
            n == node.children@.len(),
            children@.len() == n,
            rs == children@.map_values(|s: String| s@),
            out@ == code_upto(node.children@, rs, i as int),
        decreases n - i,
    {
        proof {
            assert(rs[i as int] == children@[i as int]@);
        }
        let kd = node.children[i].kind;
        if node.children[i].preserve {
            out.append(children[i].as_str());
        } else if kd == FmtKind::Space || kd == FmtKind::Parbreak {
            // dropped
        } else {
            out.append(children[i].as_str());
            match crate::node::get_next_ignoring(&node.children, i, false) {
                Option::Some(_) => {
                    out.append("\n");
                    proof {
                        reveal_strlit("\n");
                        let acc = code_upto(node.children@, rs, i as int);
                        assert(acc + rs[i as int] + "\n"@ =~= acc + rs[i as int] + seq!['\n']);
                    }
                },
                Option::None => {},
            }
        }
        i = i + 1;
    }
    out
}

/// A callee name that formats as a grid.
pub open spec fn is_table_callee(s: Seq<char>) -> bool {
    s == "table"@ || s == "tablex"@ || s == "grid"@
}

/// Whether the argument list holds a comment.
pub open spec fn args_has_comment(cs: Seq<FmtNode>) -> bool {
    exists|j: int|
        0 <= j < cs.len() && (cs[j].kind == FmtKind::LineComment || cs[j].kind
            == FmtKind::BlockComment)
}

/// The index of the argument list of a table-like call, -1 when the call
/// is not one: the callee must be `table`, `tablex` or `grid`, the list
/// must hold at least four items, and no comment may stand among them.
pub open spec fn table_args_idx(node: FmtNode) -> int {
    let cs = node.children@;
    let ci = idx_of_kind(cs, FmtKind::Ident, 0);
    if ci >= 0 && is_table_callee(cs[ci].text@) {
        let ai = idx_of_kind(cs, FmtKind::ParamsLike, 0);
        if ai >= 0 && count_items(cs[ai].children@) >= 4 && !args_has_comment(cs[ai].children@) {
            ai
        } else {
            -1
        }
    } else {
        -1
    }
}

/// What `render_node` produces: a preserved subtree verbatim; a leaf as
/// its token text (a paragraph break as one blank line); an inner node by
/// its kind-specific rule over its recursively rendered children, with a
/// table-like call's argument list re-rendered as a grid.
pub open spec fn render_spec(node: FmtNode, config: Config, parent_kind: FmtKind) -> Seq<char>
    decreases node, 2int,
{
    if node.preserve || node.kind == FmtKind::Preserve {
        text_of(node)
    } else if node.children@.len() == 0 {
        if node.kind == FmtKind::Parbreak {
            seq!['\n', '\n']
        } else {
            node.text@
        }
    } else {
        let rs = child_renders(node.children@, config, node.kind);
        let cs = node.children@;
        let k = cs.len() as int;
        let ind = indent_chars(config.indent, 1);
        let maxl = config.max_line_length as int;
        let kd = node.kind;
        if kd == FmtKind::Markup {
            markup_spec(node, rs, config.wrap_text, true, maxl)
        } else if kd == FmtKind::OneLineMarkup {
            markup_spec(node, rs, false, false, maxl)
        } else if kd == FmtKind::ParamsLike || kd == FmtKind::ParamsLikeParenthesized || kd
            == FmtKind::Array {
            args_format_spec(node, rs, ind, config.pack_consecutive_args, maxl)
        } else if kd == FmtKind::CodeBlock {
            code_block_spec(node, rs, ind, maxl, parent_kind == FmtKind::Loop)
        } else if kd == FmtKind::ContentBlock {
            content_block_spec(node, rs, ind)
        } else if kd == FmtKind::Binary || kd == FmtKind::Unary {
            bin_format_spec(node, rs, ind, maxl, parent_kind == FmtKind::ParamsLikeParenthesized)
        } else if kd == FmtKind::Equation {
            eq_spec(node, rs, ind)
        } else if kd == FmtKind::Math {
            math_fmt_spec(node, rs, ind)
        } else if kd == FmtKind::FuncCall {
            let ai = table_args_idx(node);
            if 0 <= ai && ai < cs.len() {
                let args_node = cs[ai];
                let grand = child_renders(args_node.children@, config, FmtKind::ParamsLike);
                let t = table_spec(args_node, grand, ind, spec_table_columns(args_node));
                join_upto(cs, rs.update(ai, t), k)
            } else {
                join_upto(cs, rs, k)
            }
        } else if kd == FmtKind::Conditional {
            chain_upto(cs, rs, k)
        } else if kd == FmtKind::Named {
            named_upto(cs, rs, k)
        } else if kd == FmtKind::Code {
            code_upto(cs, rs, k)
        } else {
            join_upto(cs, rs, k)
        }
    }
}

/// The renderings of a sequence of subtrees, in order.
pub open spec fn child_renders(cs: Seq<FmtNode>, config: Config, pk: FmtKind) -> Seq<Seq<char>>
    decreases cs, 1int,
{
    if cs.len() == 0 {
        Seq::empty()
    } else {
        child_renders(cs.drop_last(), config, pk).push(render_spec(cs.last(), config, pk))
    }
}

/// Reading the renderings of a sequence one by one.
pub proof fn lemma_child_renders(cs: Seq<FmtNode>, config: Config, pk: FmtKind)
    ensures
        child_renders(cs, config, pk).len() == cs.len(),
        forall|i: int|
            0 <= i < cs.len() ==> #[trigger] child_renders(cs, config, pk)[i] == render_spec(
                cs[i],
                config,
                pk,
            ),
    decreases cs.len(),
{
    if cs.len() > 0 {
        lemma_child_renders(cs.drop_last(), config, pk);
        assert forall|i: int|
            0 <= i < cs.len() implies #[trigger] child_renders(cs, config, pk)[i] == render_spec(
            cs[i],
            config,
            pk,
        ) by {
            if i < cs.len() - 1 {
                assert(cs.drop_last()[i] == cs[i]);
                assert(child_renders(cs, config, pk)[i] == child_renders(
                    cs.drop_last(),
                    config,
                    pk,
                )[i]);
            }
        }
    }
}

/// The index of the argument list when this call is table-like, per
/// [`table_args_idx`].
fn detect_table(node: &FmtNode) -> (r: Option<usize>)
    ensures
        match r {
            Option::Some(ai) => ai as int == table_args_idx(*node) && ai < node.children@.len(),
            Option::None => table_args_idx(*node) == -1,
        },
{
    match crate::node::find_kind_from(&node.children, FmtKind::Ident, 0) {
        Option::None => Option::None,
        Option::Some(ci) => {
            let callee = &node.children[ci].text;
            let is_table = callee.eq(&"table".to_owned()) || callee.eq(&"tablex".to_owned())
                || callee.eq(&"grid".to_owned());
            if !is_table {
                return Option::None;
            }
            match crate::node::find_kind_from(&node.children, FmtKind::ParamsLike, 0) {
                Option::None => Option::None,
                Option::Some(ai) => {
                    let args_node = &node.children[ai];
                    let items = crate::args::count_items_x(&args_node.children);
                    let an = args_node.children.len();
                    let mut comments = false;
                    let mut k: usize = 0;
                    while k < an
                        invariant
                            k <= an,
                            an == args_node.children@.len(),
                            comments == exists|j: int|
                                0 <= j < k && (args_node.children@[j].kind == FmtKind::LineComment
                                    || args_node.children@[j].kind == FmtKind::BlockComment),
                        decreases an - k,
                    {
                        let ck = args_node.children[k].kind;
                        if ck == FmtKind::LineComment || ck == FmtKind::BlockComment {
                            comments = true;
                        }
                        k = k + 1;
                    }
                    proof {
                        assert(comments == args_has_comment(args_node.children@));
                    }
                    if items >= 4 && !comments {
                        Option::Some(ai)
                    } else {
                        Option::None
                    }
                },
            }
        },
    }
}

/// Renders one node, per [`render_spec`]: a preserved subtree verbatim, a
/// leaf as its token text (a paragraph break as one blank line), an inner
/// node by its kind-specific rule over its rendered children.
pub fn render_node(node: &FmtNode, config: &Config, parent_kind: FmtKind) -> (r: String)
    ensures
        r@ == render_spec(*node, *config, parent_kind),
        node.preserve || node.kind == FmtKind::Preserve ==> r@ == text_of(*node),
        !(node.preserve || node.kind == FmtKind::Preserve) && node.children@.len() == 0 ==> r@
            == if node.kind == FmtKind::Parbreak {
            seq!['\n', '\n']
        } else {
            node.text@
        },
    decreases *node,
{
    if node.preserve || node.kind == FmtKind::Preserve {
        return node.text();
    }
    if node.children.len() == 0 {
        if node.kind == FmtKind::Parbreak {
            let mut out = String::new();
            out.append("\n\n");
            proof {
                reveal_strlit("\n\n");
                assert(out@ =~= seq!['\n', '\n']);
            }
            return out;
        }
        return node.text.clone();
    }
    let n = node.children.len();
    let mut rendered: Vec<String> = Vec::new();
    let mut i: usize = 0;
    while i < n
        invariant
            i <= n,
            n == node.children@.len(),
            rendered@.len() == i,
            forall|j: int|
                0 <= j < i ==> (#[trigger] rendered@[j])@ == render_spec(
                    node.children@[j],
                    *config,
                    node.kind,
                ),
        decreases n - i,
    {
        let piece = render_node(&node.children[i], config, node.kind);
        rendered.push(piece);
        i = i + 1;
    }
    proof {
        lemma_child_renders(node.children@, *config, node.kind);
        assert(rendered@.map_values(|s: String| s@) =~= child_renders(
            node.children@,
            *config,
            node.kind,
        ));
    }
    let kd = node.kind;
    if kd == FmtKind::Markup {
        format_markup(node, &rendered, config, config.wrap_text, true)
    } else if kd == FmtKind::OneLineMarkup {
        format_markup(node, &rendered, config, false, false)
    } else if kd == FmtKind::ParamsLike || kd == FmtKind::ParamsLikeParenthesized || kd
        == FmtKind::Array {
        format_args(node, &rendered, config)
    } else if kd == FmtKind::CodeBlock {
        format_code_blocks(node, &rendered, config, parent_kind == FmtKind::Loop)
    } else if kd == FmtKind::ContentBlock {
        format_content_blocks(node, &rendered, config)
    } else if kd == FmtKind::Binary || kd == FmtKind::Unary {
        format_bin_left_assoc(
            node,
            &rendered,
            config,
            parent_kind == FmtKind::ParamsLikeParenthesized,
        )
    } else if kd == FmtKind::Equation {
        format_equation(node, &rendered, config)
    } else if kd == FmtKind::Math {
        format_math(node, &rendered, config)
    } else if kd == FmtKind::FuncCall {
        match detect_table(node) {
            Option::None => join_default(node, &rendered),
            Option::Some(ai) => {
                let args_node = &node.children[ai];
                let gn = args_node.children.len();
                let mut grand: Vec<String> = Vec::new();
                let mut g: usize = 0;
                while g < gn
                    invariant
                        g <= gn,
                        ai < node.children@.len(),
                        gn == node.children@[ai as int].children@.len(),
                        grand@.len() == g,
                        forall|j: int|
                            0 <= j < g ==> (#[trigger] grand@[j])@ == render_spec(
                                node.children@[ai as int].children@[j],
                                *config,
                                FmtKind::ParamsLike,
                            ),
                    decreases gn - g,
                {
                    let piece = render_node(
                        &node.children[ai].children[g],
                        config,
                        FmtKind::ParamsLike,
                    );
                    grand.push(piece);
                    g = g + 1;
                }
                proof {
                    lemma_child_renders(
                        node.children@[ai as int].children@,
                        *config,
                        FmtKind::ParamsLike,
                    );
                    assert(grand@.map_values(|s: String| s@) =~= child_renders(
                        node.children@[ai as int].children@,
                        *config,
                        FmtKind::ParamsLike,
                    ));
                }
                let cols = crate::table::table_columns(args_node);
                let t = crate::table::format_args_table(args_node, &grand, config, cols);
                rendered.set(ai, t);
                proof {
                    assert(rendered@.map_values(|s: String| s@) =~= child_renders(
                        node.children@,
                        *config,
                        node.kind,
                    ).update(
                        ai as int,
                        table_spec(
                            node.children@[ai as int],
                            child_renders(
                                node.children@[ai as int].children@,
                                *config,
                                FmtKind::ParamsLike,
                            ),
                            indent_chars(config.indent, 1),
                            spec_table_columns(node.children@[ai as int]),
                        ),
                    ));
                }
                join_default(node, &rendered)
            },
        }
    } else if kd == FmtKind::Conditional {
        join_chain(node, &rendered)
    } else if kd == FmtKind::Named {
        format_named(node, &rendered)
    } else if kd == FmtKind::Code {
        format_code(node, &rendered)
    } else {
        join_default(node, &rendered)
    }
}

} // verus!
