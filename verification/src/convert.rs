//! The boundary to the Typst parser.
//!
//! `typst_syntax` turns source text into its own syntax tree; the wrappers
//! here hand that tree's data out as plain values, and `map_tree` rebuilds
//! it as the library's own [`FmtNode`] tree, on which everything else is
//! verified.

use vstd::prelude::*;
use vstd::string::StringSliceAdditionalSpecFns;

use crate::node::{texts_of, text_of, FmtKind, FmtNode, Spacing};

verus! {

#[verifier::external_type_specification]
#[verifier::external_body]
pub struct ExSyntaxNode(typst_syntax::SyntaxNode);

/// The tree `typst_syntax::parse` builds for a source text; the parse
/// depends on the text alone.
pub uninterp spec fn parsed(s: Seq<char>) -> typst_syntax::SyntaxNode;

/// The kind of a syntax node, as the discriminant of
/// `typst_syntax::SyntaxKind` (declaration order); a function of the node
/// alone.
pub uninterp spec fn node_kind_code(n: typst_syntax::SyntaxNode) -> u8;

/// The verbatim token text of a syntax node (empty for an inner node); a
/// function of the node alone.
pub uninterp spec fn node_leaf_text(n: typst_syntax::SyntaxNode) -> Seq<char>;

/// The children of a syntax node, in source order; a function of the node
/// alone.
pub uninterp spec fn node_children(n: typst_syntax::SyntaxNode) -> Seq<typst_syntax::SyntaxNode>;

/// The verbatim source text of a whole subtree; a function of the node
/// alone.
pub uninterp spec fn node_full_text(n: typst_syntax::SyntaxNode) -> Seq<char>;

/// The texts of a sequence of subtrees, concatenated in order.
pub open spec fn texts_concat_nodes(cs: Seq<typst_syntax::SyntaxNode>) -> Seq<char>
    decreases cs.len(),
{
    if cs.len() == 0 {
        Seq::empty()
    } else {
        texts_concat_nodes(cs.drop_last()) + node_full_text(cs.last())
    }
}

/// Relies on `typst_syntax::parse`: parses markup into a syntax tree,
/// deterministically from the text alone. Any input yields a tree; errors
/// become dedicated error nodes.
#[verifier::external_body]
pub fn parse_source(s: &str) -> (n: typst_syntax::SyntaxNode)
    ensures
        n == parsed(s@),
{
    typst_syntax::parse(s)
}

/// Relies on `typst_syntax::SyntaxNode::kind`: the node's kind, handed out
/// as the discriminant of `typst_syntax::SyntaxKind` (declaration order).
#[verifier::external_body]
fn kind_code(n: &typst_syntax::SyntaxNode) -> (k: u8)
    ensures
        k == node_kind_code(*n),
{
    n.kind() as u8
}

/// Relies on `typst_syntax::SyntaxNode::leaf_text`: the verbatim text of a
/// leaf or error node, empty for an inner node. For a childless node this
/// is the node's whole source text: the source's `full_text` returns the
/// same leaf or error text for it.
#[verifier::external_body]
fn leaf_text(n: &typst_syntax::SyntaxNode) -> (t: String)
    ensures
        t@ == node_leaf_text(*n),
        node_children(*n).len() == 0 ==> t@ == node_full_text(*n),
{
    n.leaf_text().as_str().to_owned()
}

/// Relies on `typst_syntax::SyntaxNode::children`: the node's children in
/// source order; a leaf has none. An inner node's source text is its
/// children's texts concatenated: the source's `full_text` builds it by
/// traversing exactly these children.
#[verifier::external_body]
fn child_nodes(n: &typst_syntax::SyntaxNode) -> (c: Vec<typst_syntax::SyntaxNode>)
    ensures
        c@ == node_children(*n),
        c@.len() > 0 ==> node_full_text(*n) == texts_concat_nodes(c@),
{
    n.children().cloned().collect()
}

/// Relies on `typst_syntax::SyntaxNode::full_text`: the verbatim source
/// text of the whole subtree.
#[verifier::external_body]
fn full_text(n: &typst_syntax::SyntaxNode) -> (t: String)
    ensures
        t@ == node_full_text(*n),
{
    n.full_text().as_str().to_owned()
}

// Discriminants of `typst_syntax::SyntaxKind`, in declaration order.
pub const SK_ERROR: u8 = 1;
pub const SK_LINE_COMMENT: u8 = 3;
pub const SK_BLOCK_COMMENT: u8 = 4;
pub const SK_MARKUP: u8 = 5;
pub const SK_TEXT: u8 = 6;
pub const SK_SPACE: u8 = 7;
pub const SK_LINEBREAK: u8 = 8;
pub const SK_PARBREAK: u8 = 9;
pub const SK_SMART_QUOTE: u8 = 12;
pub const SK_RAW: u8 = 15;
pub const SK_REF_MARKER: u8 = 22;
pub const SK_LIST_ITEM: u8 = 25;
pub const SK_ENUM_ITEM: u8 = 27;
pub const SK_TERM_ITEM: u8 = 29;
pub const SK_HEADING: u8 = 23;
pub const SK_EQUATION: u8 = 31;
pub const SK_MATH: u8 = 32;
pub const SK_MATH_ALIGN_POINT: u8 = 37;
pub const SK_MATH_PRIMES: u8 = 42;
pub const SK_HASH: u8 = 45;
pub const SK_LEFT_BRACE: u8 = 46;
pub const SK_RIGHT_BRACE: u8 = 47;
pub const SK_LEFT_BRACKET: u8 = 48;
pub const SK_RIGHT_BRACKET: u8 = 49;
pub const SK_LEFT_PAREN: u8 = 50;
pub const SK_RIGHT_PAREN: u8 = 51;
pub const SK_COMMA: u8 = 52;
pub const SK_COLON: u8 = 54;
pub const SK_STAR: u8 = 55;
pub const SK_UNDERSCORE: u8 = 56;
pub const SK_DOLLAR: u8 = 57;
pub const SK_PLUS: u8 = 58;
pub const SK_SLASH_EQ: u8 = 73;
pub const SK_DOTS: u8 = 74;
pub const SK_ROOT: u8 = 76;
pub const SK_NOT: u8 = 78;
pub const SK_AND: u8 = 79;
pub const SK_OR: u8 = 80;
pub const SK_IN: u8 = 90;
pub const SK_CODE: u8 = 98;
pub const SK_IDENT: u8 = 99;
pub const SK_CODE_BLOCK: u8 = 105;
pub const SK_CONTENT_BLOCK: u8 = 106;
pub const SK_PARENTHESIZED: u8 = 107;
pub const SK_ARRAY: u8 = 108;
pub const SK_DICT: u8 = 109;
pub const SK_NAMED: u8 = 110;
pub const SK_KEYED: u8 = 111;
pub const SK_UNARY: u8 = 112;
pub const SK_BINARY: u8 = 113;
pub const SK_FUNC_CALL: u8 = 115;
pub const SK_ARGS: u8 = 116;
pub const SK_SPREAD: u8 = 117;
pub const SK_PARAMS: u8 = 119;
pub const SK_LET_BINDING: u8 = 120;
pub const SK_SET_RULE: u8 = 121;
pub const SK_SHOW_RULE: u8 = 122;
pub const SK_CONDITIONAL: u8 = 124;
pub const SK_WHILE_LOOP: u8 = 125;
pub const SK_FOR_LOOP: u8 = 126;
pub const SK_MODULE_IMPORT: u8 = 127;
pub const SK_IMPORT_ITEMS: u8 = 128;
pub const SK_MODULE_INCLUDE: u8 = 131;
pub const SK_DESTRUCTURING: u8 = 135;
pub const SK_END: u8 = 0;

/// Whether the kind code is a binary-operator token.
pub open spec fn spec_is_bin_op_code(code: u8) -> bool {
    code == SK_STAR || (SK_PLUS <= code && code <= SK_SLASH_EQ && code != SK_DOTS) || code
        == SK_AND || code == SK_OR || code == SK_IN
}

/// The formatter's own kind for a syntax-kind discriminant. Kinds without a
/// dedicated rule fall back to a plain token or inner node.
pub open spec fn classify_spec(code: u8) -> FmtKind {
    if code == SK_MARKUP {
        FmtKind::Markup
    } else if code == SK_CODE {
        FmtKind::Code
    } else if code == SK_CODE_BLOCK {
        FmtKind::CodeBlock
    } else if code == SK_CONTENT_BLOCK {
        FmtKind::ContentBlock
    } else if code == SK_MATH {
        FmtKind::Math
    } else if code == SK_EQUATION {
        FmtKind::Equation
    } else if code == SK_FUNC_CALL {
        FmtKind::FuncCall
    } else if code == SK_ARGS || code == SK_PARAMS || code == SK_DICT {
        FmtKind::ParamsLike
    } else if code == SK_PARENTHESIZED {
        FmtKind::ParamsLikeParenthesized
    } else if code == SK_ARRAY || code == SK_DESTRUCTURING {
        FmtKind::Array
    } else if code == SK_BINARY {
        FmtKind::Binary
    } else if code == SK_UNARY {
        FmtKind::Unary
    } else if code == SK_CONDITIONAL {
        FmtKind::Conditional
    } else if code == SK_WHILE_LOOP || code == SK_FOR_LOOP {
        FmtKind::Loop
    } else if code == SK_HEADING {
        FmtKind::OneLineMarkup
    } else if code == SK_LIST_ITEM || code == SK_ENUM_ITEM || code == SK_TERM_ITEM {
        FmtKind::ListLike
    } else if code == SK_NAMED || code == SK_KEYED {
        FmtKind::Named
    } else if code == SK_RAW {
        FmtKind::Preserve
    } else if code == SK_SPACE {
        FmtKind::Space
    } else if code == SK_PARBREAK {
        FmtKind::Parbreak
    } else if code == SK_LINE_COMMENT {
        FmtKind::LineComment
    } else if code == SK_BLOCK_COMMENT {
        FmtKind::BlockComment
    } else if code == SK_TEXT {
        FmtKind::Text
    } else if code == SK_IDENT {
        FmtKind::Ident
    } else if code == SK_COMMA {
        FmtKind::Comma
    } else if code == SK_COLON {
        FmtKind::Colon
    } else if code == SK_DOLLAR {
        FmtKind::Dollar
    } else if code == SK_LEFT_PAREN {
        FmtKind::LeftParen
    } else if code == SK_RIGHT_PAREN {
        FmtKind::RightParen
    } else if code == SK_LEFT_BRACE {
        FmtKind::LeftBrace
    } else if code == SK_RIGHT_BRACE {
        FmtKind::RightBrace
    } else if code == SK_LEFT_BRACKET {
        FmtKind::LeftBracket
    } else if code == SK_RIGHT_BRACKET {
        FmtKind::RightBracket
    } else if code == SK_MATH_ALIGN_POINT {
        FmtKind::MathAlignPoint
    } else if code == SK_NOT {
        FmtKind::NotTok
    } else if spec_is_bin_op_code(code) {
        FmtKind::BinOpTok
    } else if code == SK_LINEBREAK {
        FmtKind::WithSpacing(Spacing::StrongBrkLine)
    } else if code == SK_LET_BINDING || code == SK_SET_RULE || code == SK_SHOW_RULE || code
        == SK_MODULE_IMPORT || code == SK_IMPORT_ITEMS || code == SK_MODULE_INCLUDE {
        FmtKind::WithSpacing(Spacing::StrongBrkLine)
    } else if code == SK_SPREAD {
        FmtKind::Spread
    } else if code == SK_END || code == SK_ROOT || code == SK_DOTS || code == SK_UNDERSCORE
        || code == SK_HASH || code == SK_REF_MARKER || code == SK_SMART_QUOTE {
        FmtKind::WithSpacing(Spacing::Destruct)
    } else if code == SK_MATH_PRIMES {
        FmtKind::WithSpacing(Spacing::StrongSpace)
    } else {
        FmtKind::WithSpacing(Spacing::WeakSpace)
    }
}

/// Whether the kind code is a binary-operator token.
fn is_bin_op_code(code: u8) -> (r: bool)
    ensures
        r == spec_is_bin_op_code(code),
{
    code == SK_STAR || (SK_PLUS <= code && code <= SK_SLASH_EQ && code != SK_DOTS) || code
        == SK_AND || code == SK_OR || code == SK_IN
}

/// The formatter's own kind for a syntax-kind discriminant.
fn classify(code: u8) -> (r: FmtKind)
    ensures
        r == classify_spec(code),
{
    if code == SK_MARKUP {
        FmtKind::Markup
    } else if code == SK_CODE {
        FmtKind::Code
    } else if code == SK_CODE_BLOCK {
        FmtKind::CodeBlock
    } else if code == SK_CONTENT_BLOCK {
        FmtKind::ContentBlock
    } else if code == SK_MATH {
        FmtKind::Math
    } else if code == SK_EQUATION {
        FmtKind::Equation
    } else if code == SK_FUNC_CALL {
        FmtKind::FuncCall
    } else if code == SK_ARGS || code == SK_PARAMS || code == SK_DICT {
        FmtKind::ParamsLike
    } else if code == SK_PARENTHESIZED {
        FmtKind::ParamsLikeParenthesized
    } else if code == SK_ARRAY || code == SK_DESTRUCTURING {
        FmtKind::Array
    } else if code == SK_BINARY {
        FmtKind::Binary
    } else if code == SK_UNARY {
        FmtKind::Unary
    } else if code == SK_CONDITIONAL {
        FmtKind::Conditional
    } else if code == SK_WHILE_LOOP || code == SK_FOR_LOOP {
        FmtKind::Loop
    } else if code == SK_HEADING {
        FmtKind::OneLineMarkup
    } else if code == SK_LIST_ITEM || code == SK_ENUM_ITEM || code == SK_TERM_ITEM {
        FmtKind::ListLike
    } else if code == SK_NAMED || code == SK_KEYED {
        FmtKind::Named
    } else if code == SK_RAW {
        FmtKind::Preserve
    } else if code == SK_SPACE {
        FmtKind::Space
    } else if code == SK_PARBREAK {
        FmtKind::Parbreak
    } else if code == SK_LINE_COMMENT {
        FmtKind::LineComment
    } else if code == SK_BLOCK_COMMENT {
        FmtKind::BlockComment
    } else if code == SK_TEXT {
        FmtKind::Text
    } else if code == SK_IDENT {
        FmtKind::Ident
    } else if code == SK_COMMA {
        FmtKind::Comma
    } else if code == SK_COLON {
        FmtKind::Colon
    } else if code == SK_DOLLAR {
        FmtKind::Dollar
    } else if code == SK_LEFT_PAREN {
        FmtKind::LeftParen
    } else if code == SK_RIGHT_PAREN {
        FmtKind::RightParen
    } else if code == SK_LEFT_BRACE {
        FmtKind::LeftBrace
    } else if code == SK_RIGHT_BRACE {
        FmtKind::RightBrace
    } else if code == SK_LEFT_BRACKET {
        FmtKind::LeftBracket
    } else if code == SK_RIGHT_BRACKET {
        FmtKind::RightBracket
    } else if code == SK_MATH_ALIGN_POINT {
        FmtKind::MathAlignPoint
    } else if code == SK_NOT {
        FmtKind::NotTok
    } else if is_bin_op_code(code) {
        FmtKind::BinOpTok
    } else if code == SK_LINEBREAK {
        FmtKind::WithSpacing(Spacing::StrongBrkLine)
    } else if code == SK_LET_BINDING || code == SK_SET_RULE || code == SK_SHOW_RULE || code
        == SK_MODULE_IMPORT || code == SK_IMPORT_ITEMS || code == SK_MODULE_INCLUDE {
        FmtKind::WithSpacing(Spacing::StrongBrkLine)
    } else if code == SK_SPREAD {
        FmtKind::Spread
    } else if code == SK_END || code == SK_ROOT || code == SK_DOTS || code == SK_UNDERSCORE
        || code == SK_HASH || code == SK_REF_MARKER || code == SK_SMART_QUOTE {
        FmtKind::WithSpacing(Spacing::Destruct)
    } else if code == SK_MATH_PRIMES {
        FmtKind::WithSpacing(Spacing::StrongSpace)
    } else {
        FmtKind::WithSpacing(Spacing::WeakSpace)
    }
}

/// How the adapter rebuilds a parsed subtree as a formatting tree: a
/// childless node becomes a leaf of the classified kind with its token
/// text; a subtree past the fuel bound becomes a preserved leaf holding
/// its verbatim source text; any other node keeps its classified kind and
/// maps its children one for one.
pub open spec fn map_rel(n: typst_syntax::SyntaxNode, r: FmtNode, fuel: nat) -> bool
    decreases r,
{
    let cs = node_children(n);
    if cs.len() == 0 {
        &&& r.kind == classify_spec(node_kind_code(n))
        &&& r.text@ == node_leaf_text(n)
        &&& r.children@.len() == 0
        &&& !r.preserve
    } else if fuel == 0 {
        &&& r.kind == FmtKind::Preserve
        &&& r.text@ == node_full_text(n)
        &&& r.children@.len() == 0
        &&& !r.preserve
    } else {
        &&& r.kind == classify_spec(node_kind_code(n))
        &&& r.text@.len() == 0
        &&& !r.preserve
        &&& r.children@.len() == cs.len()
        &&& forall|i: int|
            0 <= i < cs.len() ==> map_rel(cs[i], #[trigger] r.children@[i], (fuel - 1) as nat)
    }
}

proof fn lemma_texts_match(fs: Seq<FmtNode>, ns: Seq<typst_syntax::SyntaxNode>)
    requires
        fs.len() == ns.len(),
        forall|i: int| 0 <= i < fs.len() ==> text_of(#[trigger] fs[i]) == node_full_text(ns[i]),
    ensures
        texts_of(fs) == texts_concat_nodes(ns),
    decreases fs.len(),
{
    if fs.len() > 0 {
        assert(forall|i: int|
            0 <= i < fs.drop_last().len() ==> #[trigger] fs.drop_last()[i] == fs[i]
                && ns.drop_last()[i] == ns[i]);
        lemma_texts_match(fs.drop_last(), ns.drop_last());
    }
}

/// Rebuilds the parser's tree as the library's own formatting tree,
/// kind-for-kind and child-for-child, with the tree's verbatim source text
/// kept intact. `fuel` bounds the recursion depth; a subtree deeper than
/// that is kept verbatim as a preserved leaf, so no input is ever lost.
pub fn map_tree(node: &typst_syntax::SyntaxNode, fuel: usize) -> (r: FmtNode)
    ensures
        map_rel(*node, r, fuel as nat),
        text_of(r) == node_full_text(*node),
    decreases fuel,
{
    let kind = classify(kind_code(node));
    let cs = child_nodes(node);
    if cs.len() == 0 {
        let r = FmtNode::leaf(kind, leaf_text(node));
        proof {
            assert(map_rel(*node, r, fuel as nat));
        }
        r
    } else if fuel == 0 {
        let r = FmtNode::leaf(FmtKind::Preserve, full_text(node));
        proof {
            assert(map_rel(*node, r, fuel as nat));
        }
        r
    } else {
        let mut children: Vec<FmtNode> = Vec::new();
        let n = cs.len();
        let mut i: usize = 0;
        while i < n
            invariant
                i <= n,
                n == cs@.len(),
                cs@ == node_children(*node),
                fuel >= 1,
                children@.len() == i,
                forall|j: int|
                    0 <= j < i ==> map_rel(cs@[j], #[trigger] children@[j], (fuel - 1) as nat),
                forall|j: int|
                    0 <= j < i ==> text_of(#[trigger] children@[j]) == node_full_text(cs@[j]),
            decreases n - i,
        {
            let piece = map_tree(&cs[i], fuel - 1);
            children.push(piece);
            i = i + 1;
        }
        let ghost gchildren = children@;
        let r = FmtNode::inner(kind, children);
        proof {
            assert(map_rel(*node, r, fuel as nat));
            lemma_texts_match(gchildren, cs@);
        }
        r
    }
}

/// The depth bound `source_tree` maps with: generous for any real
/// document, clamped at the machine limit.
pub open spec fn source_fuel(s: &str) -> nat {
    let l = s.spec_bytes().len() as usize;
    if l < usize::MAX - 64 {
        (l + 64) as nat
    } else {
        usize::MAX as nat
    }
}

/// Parses source text and hands back the formatting tree for it: the
/// mapped image of the parse, whose leaf texts concatenate back to the
/// parse's own source text.
pub fn source_tree(s: &str) -> (r: FmtNode)
    ensures
        map_rel(parsed(s@), r, source_fuel(s)),
        text_of(r) == node_full_text(parsed(s@)),
{
    let parse = parse_source(s);
    let fuel = if s.len() < usize::MAX - 64 {
        s.len() + 64
    } else {
        usize::MAX
    };
    proof {
        assert(fuel as nat == source_fuel(s));
    }
    map_tree(&parse, fuel)
}

} // verus!
