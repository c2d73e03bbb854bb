//! Structural comparison of two parses.
//!
//! Two trees count as equal when they have the same kinds and leaf texts in
//! the same order, once whitespace, paragraph breaks, separators and plain
//! text runs are set aside — the sense in which formatting must not change
//! a document.

use vstd::prelude::*;

use crate::convert::{map_rel, parsed, source_fuel, source_tree};
use crate::node::{FmtKind, FmtNode};

verus! {

/// Kinds set aside by the comparison: whitespace and paragraph breaks (the
/// formatter rewrites them), separators (a trailing one may come or go) and
/// plain text runs (reflow moves their internal whitespace).
pub open spec fn ignored_kind(k: FmtKind) -> bool {
    k == FmtKind::Space || k == FmtKind::Parbreak || k == FmtKind::Comma || k == FmtKind::Text
}

/// Structural equality of two subtrees.
pub open spec fn tree_eq(a: FmtNode, b: FmtNode) -> bool
    decreases a, 0int, 0int,
{
    &&& a.kind == b.kind
    &&& (ignored_kind(a.kind) || a.text@ == b.text@)
    &&& lists_eq(a.children@, 0, b.children@, 0)
}

/// Structural equality of two child lists from the given positions on,
/// ignored kinds skipped on both sides.
pub open spec fn lists_eq(xs: Seq<FmtNode>, i: int, ys: Seq<FmtNode>, j: int) -> bool
    decreases xs, xs.len() - i + ys.len() - j, 1int,
{
    if i < 0 || j < 0 || i > xs.len() || j > ys.len() {
        false
    } else if i < xs.len() && ignored_kind(xs[i].kind) {
        lists_eq(xs, i + 1, ys, j)
    } else if j < ys.len() && ignored_kind(ys[j].kind) {
        lists_eq(xs, i, ys, j + 1)
    } else if i == xs.len() && j == ys.len() {
        true
    } else if i == xs.len() || j == ys.len() {
        false
    } else {
        tree_eq(xs[i], ys[j]) && lists_eq(xs, i + 1, ys, j + 1)
    }
}

/// Structural equality is reflexive: a tree always counts as equal to
/// itself, so an unchanged document always passes the comparison.
pub proof fn lemma_tree_eq_refl(a: FmtNode)
    ensures
        tree_eq(a, a),
    decreases a, 0int, 0int,
{
    lemma_lists_eq_refl(a.children@, 0, 0);
}

proof fn lemma_lists_eq_refl(xs: Seq<FmtNode>, i: int, j: int)
    requires
        0 <= j <= i <= xs.len(),
        forall|k: int| j <= k < i ==> ignored_kind(#[trigger] xs[k].kind),
    ensures
        lists_eq(xs, i, xs, j),
    decreases xs, 2 * xs.len() - i - j, 1int,
{
    if i < xs.len() && ignored_kind(xs[i].kind) {
        lemma_lists_eq_refl(xs, i + 1, j);
    } else if j < xs.len() && ignored_kind(xs[j].kind) {
        lemma_lists_eq_refl(xs, i, j + 1);
    } else if i == xs.len() && j == xs.len() {
    } else if i == xs.len() || j == xs.len() {
        assert(j < i);
        assert(ignored_kind(xs[j].kind));
    } else {
        assert(j == i) by {
            if j < i {
                assert(ignored_kind(xs[j].kind));
            }
        }
        lemma_tree_eq_refl(xs[i]);
        lemma_lists_eq_refl(xs, i + 1, j + 1);
    }
}

proof fn lemma_lists_eq_skip_right(xs: Seq<FmtNode>, i: int, ys: Seq<FmtNode>, j: int)
    requires
        0 <= j < ys.len(),
        ignored_kind(ys[j].kind),
        0 <= i <= xs.len(),
    ensures
        lists_eq(xs, i, ys, j) == lists_eq(xs, i, ys, j + 1),
    decreases xs.len() - i,
{
    if i < xs.len() && ignored_kind(xs[i].kind) {
        lemma_lists_eq_skip_right(xs, i + 1, ys, j);
    }
}

/// Structural equality is symmetric: whichever of the two documents is
/// held against the other, the comparison agrees.
pub proof fn lemma_tree_eq_sym(a: FmtNode, b: FmtNode)
    requires
        tree_eq(a, b),
    ensures
        tree_eq(b, a),
    decreases a, b, 0int, 0int,
{
    lemma_lists_eq_sym(a.children@, 0, b.children@, 0);
}

proof fn lemma_lists_eq_sym(xs: Seq<FmtNode>, i: int, ys: Seq<FmtNode>, j: int)
    requires
        0 <= i <= xs.len(),
        0 <= j <= ys.len(),
        lists_eq(xs, i, ys, j),
    ensures
        lists_eq(ys, j, xs, i),
    decreases xs, ys, xs.len() - i + ys.len() - j, 1int,
{
    if j < ys.len() && ignored_kind(ys[j].kind) {
        lemma_lists_eq_skip_right(xs, i, ys, j);
        lemma_lists_eq_sym(xs, i, ys, j + 1);
    } else if i < xs.len() && ignored_kind(xs[i].kind) {
        lemma_lists_eq_sym(xs, i + 1, ys, j);
    } else if i == xs.len() && j == ys.len() {
    } else {
        lemma_tree_eq_sym(xs[i], ys[j]);
        lemma_lists_eq_sym(xs, i + 1, ys, j + 1);
    }
}

/// Whether two subtrees are structurally equal.
pub fn tree_are_equal(a: &FmtNode, b: &FmtNode) -> (r: bool)
    ensures
        r == tree_eq(*a, *b),
    decreases *a, 0int, 0int,
{
    if !(a.kind == b.kind) {
        return false;
    }
    if !ignored_kind_x(a.kind) && !(a.text == b.text) {
        return false;
    }
    lists_equal(&a.children, 0, &b.children, 0)
}

/// Whether the comparison sets this kind aside.
fn ignored_kind_x(k: FmtKind) -> (r: bool)
    ensures
        r == ignored_kind(k),
{
    k == FmtKind::Space || k == FmtKind::Parbreak || k == FmtKind::Comma || k == FmtKind::Text
}

fn lists_equal(xs: &Vec<FmtNode>, i: usize, ys: &Vec<FmtNode>, j: usize) -> (r: bool)
    requires
        i <= xs@.len(),
        j <= ys@.len(),
    ensures
        r == lists_eq(xs@, i as int, ys@, j as int),
    decreases *xs, xs@.len() - i + ys@.len() - j, 1int,
{
    if i < xs.len() && ignored_kind_x(xs[i].kind) {
        lists_equal(xs, i + 1, ys, j)
    } else if j < ys.len() && ignored_kind_x(ys[j].kind) {
        lists_equal(xs, i, ys, j + 1)
    } else if i == xs.len() && j == ys.len() {
        true
    } else if i == xs.len() || j == ys.len() {
        false
    } else {
        tree_are_equal(&xs[i], &ys[j]) && lists_equal(xs, i + 1, ys, j + 1)
    }
}

/// Whether two source texts parse to structurally equal trees: the result
/// is the comparison of the two parses' mapped formatting trees.
pub fn parses_the_same(s: &str, oth: &str) -> (r: bool)
    ensures
        exists|ta: FmtNode, tb: FmtNode|
            {
                &&& #[trigger] map_rel(parsed(s@), ta, source_fuel(s))
                &&& #[trigger] map_rel(parsed(oth@), tb, source_fuel(oth))
                &&& r == tree_eq(ta, tb)
            },
{
    let a = source_tree(s);
    let b = source_tree(oth);
    let r = tree_are_equal(&a, &b);
    proof {
        assert(map_rel(parsed(s@), a, source_fuel(s)) && map_rel(parsed(oth@), b, source_fuel(oth))
            && r == tree_eq(a, b));
    }
    r
}

} // verus!
