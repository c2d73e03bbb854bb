//! The formatting tree: a simplified, owned view of a parsed document.
//!
//! Every node carries a kind, its verbatim text (for leaves), and its
//! children (for inner nodes). Concatenating the leaf texts in order yields
//! the exact source text of the subtree.

use vstd::prelude::*;


verus! {

/// The spacing class a plain token or construct carries when no dedicated
/// rule applies. `StrongBrkLine` is the one class the renderer acts on: a
/// line break after such a construct (a binding, a rule, an import, an
/// explicit line-break token) is kept, since the parser ends it at the
/// line.
#[derive(Clone, Copy, Debug, PartialEq, Eq, Structural)]
pub enum Spacing {
    /// A space may follow, but a rule above may drop it.
    WeakSpace,
    /// Glued to its surroundings; nothing is inserted.
    Destruct,
    /// A space must separate it from what follows.
    StrongSpace,
    /// A line break must follow.
    StrongBrkLine,
}

/// The closed set of node kinds the formatter distinguishes.
#[derive(Clone, Copy, Debug, PartialEq, Eq, Structural)]
pub enum FmtKind {
    /// A run of markup content.
    Markup,
    /// A run of code statements.
    Code,
    /// `{ ... }`
    CodeBlock,
    /// `[ ... ]`
    ContentBlock,
    /// The inside of an equation.
    Math,
    /// `$ ... $`
    Equation,
    /// A callee followed by an argument list.
    FuncCall,
    /// An argument or parameter list, a dictionary, or a destructuring.
    ParamsLike,
    /// A parenthesized expression (grouping, not a collection).
    ParamsLikeParenthesized,
    /// An array literal; its single trailing separator is significant.
    Array,
    /// A binary expression.
    Binary,
    /// A unary expression.
    Unary,
    /// An `if` / `else if` / `else` chain.
    Conditional,
    /// A `for` or `while` loop; its body always breaks.
    Loop,
    /// A heading or another construct confined to one line.
    OneLineMarkup,
    /// A list, enumeration or term item; it must start its own line.
    ListLike,
    /// A spread argument (`..`): an item whose element count is unknown.
    Spread,
    /// A named or keyed item: name, colon, value.
    Named,
    /// A raw or literal block whose text is copied verbatim.
    Preserve,
    /// A whitespace run.
    Space,
    /// A paragraph break.
    Parbreak,
    /// `// ...`
    LineComment,
    /// `/* ... */`
    BlockComment,
    /// Plain markup text.
    Text,
    /// An identifier.
    Ident,
    /// `,`
    Comma,
    /// `:`
    Colon,
    /// `$`
    Dollar,
    /// `(`
    LeftParen,
    /// `)`
    RightParen,
    /// `{`
    LeftBrace,
    /// `}`
    RightBrace,
    /// `[`
    LeftBracket,
    /// `]`
    RightBracket,
    /// `&` in math: a column every line aligns on.
    MathAlignPoint,
    /// A binary operator token.
    BinOpTok,
    /// The `not` keyword, which glues to a following `in`.
    NotTok,
    /// Any other token or inner node, with its preferred spacing.
    WithSpacing(Spacing),
}

/// One node of the formatting tree. Leaves hold their source text in
/// `text`; inner nodes hold children and keep `text` empty.
#[derive(Debug)]
pub struct FmtNode {
    /// What the node is.
    pub kind: FmtKind,
    /// The verbatim source text of a leaf; empty for inner nodes.
    pub text: String,
    /// The children of an inner node, in source order.
    pub children: Vec<FmtNode>,
    /// Set by the preserve pass: render this subtree verbatim.
    pub preserve: bool,
}

/// The verbatim source text of a subtree: a leaf's own text, or the
/// children's texts concatenated in order.
pub open spec fn text_of(n: FmtNode) -> Seq<char>
    decreases n,
{
    if n.children.len() == 0 {
        n.text@
    } else {
        texts_of(n.children@)
    }
}

/// The concatenation of the verbatim texts of a sequence of subtrees.
pub open spec fn texts_of(cs: Seq<FmtNode>) -> Seq<char>
    decreases cs,
{
    if cs.len() == 0 {
        Seq::empty()
    } else {
        texts_of(cs.drop_last()) + text_of(cs.last())
    }
}

impl FmtNode {
    /// A leaf node with the given kind and source text.
    pub fn leaf(kind: FmtKind, text: String) -> (n: FmtNode)
        ensures
            n.kind == kind,
            n.text == text,
            n.children@.len() == 0,
            n.preserve == false,
            text_of(n) == text@,
    {
        FmtNode { kind, text, children: Vec::new(), preserve: false }
    }

    /// An inner node with the given kind and children.
    pub fn inner(kind: FmtKind, children: Vec<FmtNode>) -> (n: FmtNode)
        ensures
            n.kind == kind,
            n.children == children,
            n.text@.len() == 0,
            n.preserve == false,
            text_of(n) == if children@.len() == 0 { Seq::<char>::empty() } else { texts_of(
                children@,
            ) },
    {
        let n = FmtNode { kind, text: String::new(), children, preserve: false };
        n
    }

    /// The verbatim source text of this subtree.
    pub fn text(&self) -> (r: String)
        ensures
            r@ == text_of(*self),
        decreases *self,
    {
        if self.children.len() == 0 {
            self.text.clone()
        } else {
            let mut out = String::new();
            let mut i: usize = 0;
            proof {
                assert(self.children@.subrange(0, 0) =~= Seq::<FmtNode>::empty());
            }
            while i < self.children.len()
                invariant
                    i <= self.children@.len(),
                    out@ == texts_of(self.children@.subrange(0, i as int)),
                decreases self.children@.len() - i,
            {
                let part = self.children[i].text();
                out.append(part.as_str());
                proof {
                    let pre = self.children@.subrange(0, i as int);
                    let cur = self.children@.subrange(0, i + 1);
                    assert(cur.drop_last() =~= pre);
                    assert(cur.last() == self.children@[i as int]);
                }
                i = i + 1;
            }
            proof {
                assert(self.children@.subrange(0, self.children@.len() as int)
                    =~= self.children@);
            }
            out
        }
    }
}

/// Whether a child is skipped when looking for the next meaningful
/// sibling: whitespace always, comments when `skip_comments` is set.
pub open spec fn skippable(n: FmtNode, skip_comments: bool) -> bool {
    n.kind == FmtKind::Space || (skip_comments && (n.kind == FmtKind::LineComment || n.kind
        == FmtKind::BlockComment))
}

/// The index of the next non-skipped sibling after `i`, or -1.
pub open spec fn next_skipping(cs: Seq<FmtNode>, i: int, skip_comments: bool) -> int
    decreases cs.len() - i,
{
    if i + 1 >= cs.len() || i + 1 < 0 {
        -1
    } else if skippable(cs[i + 1], skip_comments) {
        next_skipping(cs, i + 1, skip_comments)
    } else {
        i + 1
    }
}

/// The index of the next sibling after `i` that is not whitespace (nor a
/// comment, when `skip_comments` is set); `None` when only skipped siblings
/// follow.
pub fn get_next_ignoring(children: &Vec<FmtNode>, i: usize, skip_comments: bool) -> (r: Option<
    usize,
>)
    ensures
        match r {
            Option::Some(j) => j as int == next_skipping(children@, i as int, skip_comments) && i
                < j < children@.len(),
            Option::None => next_skipping(children@, i as int, skip_comments) == -1,
        },
    decreases children@.len() - i,
{
    if i >= children.len() || i + 1 >= children.len() {
        Option::None
    } else {
        let k = children[i + 1].kind;
        if k == FmtKind::Space || (skip_comments && (k == FmtKind::LineComment || k
            == FmtKind::BlockComment)) {
            get_next_ignoring(children, i + 1, skip_comments)
        } else {
            Option::Some(i + 1)
        }
    }
}

/// Whether the next meaningful sibling after `i` has the given kind.
pub fn next_is_ignoring(children: &Vec<FmtNode>, i: usize, kind: FmtKind, skip_comments: bool) -> (
    r: bool)
    ensures
        r == ({
            let j = next_skipping(children@, i as int, skip_comments);
            j >= 0 && children@[j].kind == kind
        }),
{
    match get_next_ignoring(children, i, skip_comments) {
        Option::Some(j) => children[j].kind == kind,
        Option::None => false,
    }
}

/// The index of the previous non-skipped sibling before `i`, or -1.
pub open spec fn prev_skipping(cs: Seq<FmtNode>, i: int, skip_comments: bool) -> int
    decreases i,
{
    if i - 1 < 0 || i - 1 >= cs.len() {
        -1
    } else if skippable(cs[i - 1], skip_comments) {
        prev_skipping(cs, i - 1, skip_comments)
    } else {
        i - 1
    }
}

/// The index of the previous sibling before `i` that is not whitespace
/// (nor a comment, when `skip_comments` is set).
pub fn get_prev_ignoring(children: &Vec<FmtNode>, i: usize, skip_comments: bool) -> (r: Option<
    usize,
>)
    requires
        i <= children@.len(),
    ensures
        match r {
            Option::Some(j) => j as int == prev_skipping(children@, i as int, skip_comments) && j
                < i,
            Option::None => prev_skipping(children@, i as int, skip_comments) == -1,
        },
    decreases i,
{
    if i == 0 {
        Option::None
    } else {
        let k = children[i - 1].kind;
        if k == FmtKind::Space || (skip_comments && (k == FmtKind::LineComment || k
            == FmtKind::BlockComment)) {
            get_prev_ignoring(children, i - 1, skip_comments)
        } else {
            Option::Some(i - 1)
        }
    }
}

/// Whether the previous meaningful sibling before `i` has the given kind.
pub fn prev_is_ignoring(children: &Vec<FmtNode>, i: usize, kind: FmtKind, skip_comments: bool) -> (
    r: bool)
    requires
        i <= children@.len(),
    ensures
        r == ({
            let j = prev_skipping(children@, i as int, skip_comments);
            j >= 0 && children@[j].kind == kind
        }),
{
    match get_prev_ignoring(children, i, skip_comments) {
        Option::Some(j) => children[j].kind == kind,
        Option::None => false,
    }
}

/// Whether a comma appears anywhere after index `i`.
pub open spec fn spec_has_later_comma(cs: Seq<FmtNode>, i: int) -> bool
    decreases cs.len() - i,
{
    if i + 1 >= cs.len() || i + 1 < 0 {
        false
    } else {
        cs[i + 1].kind == FmtKind::Comma || spec_has_later_comma(cs, i + 1)
    }
}

/// Whether a comma appears anywhere after index `i`.
pub fn has_later_comma(children: &Vec<FmtNode>, i: usize) -> (r: bool)
    ensures
        r == spec_has_later_comma(children@, i as int),
    decreases children@.len() - i,
{
    if i >= children.len() || i + 1 >= children.len() {
        false
    } else if children[i + 1].kind == FmtKind::Comma {
        true
    } else {
        has_later_comma(children, i + 1)
    }
}

/// The index of the first child at or after `i` with the given kind, -1
/// when there is none.
pub open spec fn idx_of_kind(cs: Seq<FmtNode>, kind: FmtKind, i: int) -> int
    decreases cs.len() - i,
{
    if i >= cs.len() || i < 0 {
        -1
    } else if cs[i].kind == kind {
        i
    } else {
        idx_of_kind(cs, kind, i + 1)
    }
}

/// The index of the first child at or after `i` with the given kind.
pub fn find_kind_from(children: &Vec<FmtNode>, kind: FmtKind, i: usize) -> (r: Option<usize>)
    ensures
        match r {
            Option::Some(j) => j as int == idx_of_kind(children@, kind, i as int) && i <= j
                < children@.len(),
            Option::None => idx_of_kind(children@, kind, i as int) == -1,
        },
    decreases children@.len() - i,
{
    if i >= children.len() {
        Option::None
    } else if children[i].kind == kind {
        Option::Some(i)
    } else {
        find_kind_from(children, kind, i + 1)
    }
}

/// Every node of the sequence is a whitespace run.
pub open spec fn all_space(cs: Seq<FmtNode>) -> bool {
    forall|i: int| 0 <= i < cs.len() ==> cs[i].kind == FmtKind::Space
}

/// Whether every node of the sequence is a whitespace run.
pub fn all_space_x(children: &Vec<FmtNode>) -> (r: bool)
    ensures
        r == all_space(children@),
{
    let n = children.len();
    let mut i: usize = 0;
    while i < n
        invariant
            i <= n,
            n == children@.len(),
            forall|j: int| 0 <= j < i ==> children@[j].kind == FmtKind::Space,
        decreases n - i,
    {
        if !(children[i].kind == FmtKind::Space) {
            return false;
        }
        i = i + 1;
    }
    true
}

/// The index of the first direct child of the given kind, or `None`.
pub fn find_child(node: &FmtNode, kind: FmtKind) -> (r: Option<usize>)
    ensures
        match r {
            Option::Some(j) => j < node.children@.len() && node.children@[j as int].kind == kind
                && forall|m: int| 0 <= m < j ==> node.children@[m].kind != kind,
            Option::None => forall|m: int|
                0 <= m < node.children@.len() ==> node.children@[m].kind != kind,
        },
{
    let n = node.children.len();
    let mut i: usize = 0;
    while i < n
        invariant
            i <= n,
            n == node.children@.len(),
            forall|m: int| 0 <= m < i ==> node.children@[m].kind != kind,
        decreases n - i,
    {
        if node.children[i].kind == kind {
            return Option::Some(i);
        }
        i = i + 1;
    }
    Option::None
}

} // verus!
