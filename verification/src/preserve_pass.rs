//! The preserve pass.
//!
//! A comment containing a disable marker opens a region, one containing an
//! enable marker closes it; everything between them is tagged so the
//! renderer copies it verbatim. The depth a subtree accumulates is clamped
//! at zero, so an enable marker with no prior disable marker in the same
//! subtree is ignored, and an unclosed disable marker keeps preserving
//! through the end of its containing subtree. Preserved text is rendered
//! verbatim; only the final cleanup still reaches it, stripping spaces that
//! stand directly before a line break, there as everywhere.

use vstd::prelude::*;

use crate::node::{FmtKind, FmtNode};
use crate::strconv::str_chars;

verus! {

/// `needle` occurs contiguously inside `hay`.
pub open spec fn contains_seq(hay: Seq<char>, needle: Seq<char>) -> bool {
    exists|i: int|
        0 <= i && i + needle.len() <= hay.len() && #[trigger] hay.subrange(i, i + needle.len())
            == needle
}

/// Whether `needle` occurs contiguously inside `hay`.
pub fn contains_chars(hay: &Vec<char>, needle: &Vec<char>) -> (r: bool)
    ensures
        r == contains_seq(hay@, needle@),
{
    let h = hay.len();
    let n = needle.len();
    if n > h {
        proof {
            assert(!contains_seq(hay@, needle@));
        }
        return false;
    }
    if n == 0 {
        proof {
            assert(hay@.subrange(0, 0 + needle@.len() as int) =~= needle@);
        }
        return true;
    }
    let mut i: usize = 0;
    while i <= h - n
        invariant
            n <= h,
            h == hay@.len(),
            n == needle@.len(),
            1 <= n,
            i <= h - n + 1,
            forall|k: int|
                0 <= k < i ==> #[trigger] hay@.subrange(k, k + needle@.len()) != needle@,
        decreases h - i,
    {
        let mut j: usize = 0;
        let mut ok: bool = true;
        while j < n
            invariant
                n <= h,
                h == hay@.len(),
                n == needle@.len(),
                i + n <= h,
                j <= n,
                ok ==> forall|m: int| 0 <= m < j ==> hay@[i + m] == needle@[m],
                !ok ==> hay@.subrange(i as int, i + needle@.len()) != needle@,
            decreases n - j,
        {
            if hay[i + j] != needle[j] {
                ok = false;
                proof {
                    let sub = hay@.subrange(i as int, i + needle@.len());
                    assert(sub[j as int] == hay@[i + j]);
                    assert(sub != needle@) by {
                        if sub == needle@ {
                            assert(sub[j as int] == needle@[j as int]);
                        }
                    }
                }
                j = n;
            } else {
                proof {
                    assert(hay@[i + j] == needle@[j as int]);
                }
                j = j + 1;
            }
        }
        if ok {
            proof {
                assert(hay@.subrange(i as int, i + needle@.len()) =~= needle@);
            }
            return true;
        }
        i = i + 1;
    }
    proof {
        assert(forall|k: int|
            0 <= k && k + needle@.len() <= hay@.len() ==> #[trigger] hay@.subrange(
                k,
                k + needle@.len(),
            ) != needle@);
    }
    false
}

/// The comment text asks formatting to stop.
pub open spec fn has_off_marker(s: Seq<char>) -> bool {
    contains_seq(s, "format:off"@) || contains_seq(s, "typstfmt::off"@)
}

/// The comment text asks formatting to resume.
pub open spec fn has_on_marker(s: Seq<char>) -> bool {
    contains_seq(s, "format:on"@) || contains_seq(s, "typstfmt::on"@)
}

/// What a single comment adds to the preserve depth of its parent.
pub open spec fn comment_contribution(n: FmtNode) -> int {
    if has_off_marker(n.text@) {
        1
    } else if has_on_marker(n.text@) {
        -1
    } else {
        0
    }
}

/// Depths are clamped here so that the computation stays in machine range
/// whatever the tree; real documents never come near it.
pub open spec fn depth_cap() -> int {
    0x4000_0000_0000_0000
}

/// `a + b`, clamped from above at the depth cap.
pub open spec fn add_capped(a: int, b: int) -> int {
    if a + b > depth_cap() {
        depth_cap()
    } else {
        a + b
    }
}

/// The preserve depth accumulated after the first `k` children of a node,
/// clamped below at zero.
pub open spec fn fold_idx(cs: Seq<FmtNode>, k: int) -> int
    decreases cs, k, 0int,
{
    if k <= 0 || k > cs.len() {
        0
    } else {
        let raw = add_capped(fold_idx(cs, k - 1), pres_idx(cs[k - 1]));
        if raw > 0 {
            raw
        } else {
            0int
        }
    }
}

/// Whether, after the first `k` children, the parent of this node must
/// still tag it: true until some prefix opens a region.
pub open spec fn fold_pmh(cs: Seq<FmtNode>, k: int) -> bool
    decreases cs, k, 1int,
{
    if k <= 0 || k > cs.len() {
        true
    } else {
        fold_pmh(cs, k - 1) && !(fold_idx(cs, k) > 0)
    }
}

/// The preserve depth a subtree hands to its parent.
pub open spec fn pres_idx(n: FmtNode) -> int
    decreases n, 0int, 0int,
{
    if n.children.len() == 0 {
        if n.kind == FmtKind::LineComment || n.kind == FmtKind::BlockComment {
            comment_contribution(n)
        } else {
            0
        }
    } else {
        fold_idx(n.children@, n.children@.len() as int)
    }
}

/// Whether the parent of this subtree must still tag it itself.
pub open spec fn pres_pmh(n: FmtNode) -> bool
    decreases n, 0int, 2int,
{
    if n.children.len() == 0 {
        false
    } else {
        fold_pmh(n.children@, n.children@.len() as int)
    }
}

/// Whether the pass tags child `i` of a node as preserved: the region is
/// open once the child has been folded in, and either the child is a leaf,
/// or it did not isolate the region itself, or regions are nested.
pub open spec fn child_force(cs: Seq<FmtNode>, i: int) -> bool {
    let idx1 = fold_idx(cs, i + 1);
    idx1 > 0 && (cs[i].children.len() == 0 || pres_pmh(cs[i]) || idx1 > 1)
}

/// How the pass rewrites a subtree: kinds, texts and shape stay, and a
/// node's preserve flag is raised exactly where a region is open around it
/// (`force`), on top of what it already had.
pub open spec fn pres_rel(orig: FmtNode, new: FmtNode, force: bool) -> bool
    decreases orig,
{
    &&& new.kind == orig.kind
    &&& new.text@ == orig.text@
    &&& new.preserve == (orig.preserve || force)
    &&& new.children@.len() == orig.children@.len()
    &&& forall|i: int|
        0 <= i < orig.children@.len() ==> pres_rel(
            orig.children@[i],
            #[trigger] new.children@[i],
            child_force(orig.children@, i),
        )
}

proof fn lemma_data_bounds(n: FmtNode)
    ensures
        -1 <= pres_idx(n) <= depth_cap(),
    decreases n, 0int, 1int,
{
    if n.children.len() > 0 {
        lemma_fold_bounds_in(n.children@, n.children@.len() as int);
    }
}

proof fn lemma_fold_bounds_in(cs: Seq<FmtNode>, k: int)
    requires
        k <= cs.len(),
    ensures
        0 <= fold_idx(cs, k) <= depth_cap(),
    decreases cs, k, 1int,
{
    if k > 0 {
        lemma_fold_bounds_in(cs, k - 1);
        lemma_data_bounds(cs[k - 1]);
    }
}

/// The preserve depth a subtree hands to its parent, and whether the parent
/// must still tag the subtree itself.
#[derive(Debug)]
pub struct PreserveData {
    /// Accumulated preserve depth; a bare disable marker contributes 1, a
    /// bare enable marker -1, and a subtree its clamped sum.
    pub preserve_idx: i64,
    /// The subtree did not isolate an open region itself, so a preserving
    /// parent has to tag it whole.
    pub parent_must_handle: bool,
}

impl PreserveData {
    /// Plain constructor.
    pub fn new(preserve_idx: i64, parent_must_handle: bool) -> (d: PreserveData)
        ensures
            d.preserve_idx == preserve_idx,
            d.parent_must_handle == parent_must_handle,
    {
        PreserveData { preserve_idx, parent_must_handle }
    }
}

/// Whether this comment's text holds a disable marker.
fn comment_is_off(text: &String) -> (r: bool)
    ensures
        r == has_off_marker(text@),
{
    let v = str_chars(text.as_str());
    let m1 = str_chars("format:off");
    let m2 = str_chars("typstfmt::off");
    contains_chars(&v, &m1) || contains_chars(&v, &m2)
}

/// Whether this comment's text holds an enable marker.
fn comment_is_on(text: &String) -> (r: bool)
    ensures
        r == has_on_marker(text@),
{
    let v = str_chars(text.as_str());
    let m1 = str_chars("format:on");
    let m2 = str_chars("typstfmt::on");
    contains_chars(&v, &m1) || contains_chars(&v, &m2)
}

fn pres_go(node: &FmtNode) -> (r: (FmtNode, i64, bool))
    ensures
        pres_rel(*node, r.0, false),
        r.1 as int == pres_idx(*node),
        r.2 == pres_pmh(*node),
    decreases *node,
{
    if node.children.len() == 0 {
        let is_comment = node.kind == FmtKind::LineComment || node.kind == FmtKind::BlockComment;
        let delta: i64 = if is_comment && comment_is_off(&node.text) {
            1
        } else if is_comment && comment_is_on(&node.text) {
            -1
        } else {
            0
        };
        let copy = FmtNode {
            kind: node.kind,
            text: node.text.clone(),
            children: Vec::new(),
            preserve: node.preserve,
        };
        proof {
            assert(pres_rel(*node, copy, false));
        }
        (copy, delta, false)
    } else {
        let n = node.children.len();
        let ghost cs = node.children@;
        let mut out: Vec<FmtNode> = Vec::new();
        let mut idx: i64 = 0;
        let mut pmh: bool = true;
        let mut i: usize = 0;
        while i < n
            invariant
                i <= n,
                n == cs.len(),
                cs == node.children@,
                out@.len() == i,
                forall|m: int|
                    0 <= m < i ==> pres_rel(cs[m], #[trigger] out@[m], child_force(cs, m)),
                idx as int == fold_idx(cs, i as int),
                pmh == fold_pmh(cs, i as int),
                0 <= idx <= depth_cap(),
            decreases n - i,
        {
            let (c2, ci, cpmh) = pres_go(&node.children[i]);
            proof {
                lemma_data_bounds(cs[i as int]);
            }
            let raw: i64 = if idx <= 0x4000_0000_0000_0000i64 - ci {
                idx + ci
            } else {
                0x4000_0000_0000_0000i64
            };
            let idx1: i64 = if raw > 0 {
                raw
            } else {
                0
            };
            proof {
                assert(idx1 as int == fold_idx(cs, i + 1));
            }
            if idx1 > 0 {
                pmh = false;
                let tag: bool = if c2.children.len() == 0 {
                    true
                } else {
                    cpmh || idx1 > 1
                };
                if tag {
                    let c3 = FmtNode {
                        kind: c2.kind,
                        text: c2.text,
                        children: c2.children,
                        preserve: true,
                    };
                    proof {
                        assert(pres_rel(cs[i as int], c3, true));
                        assert(child_force(cs, i as int));
                    }
                    out.push(c3);
                } else {
                    proof {
                        assert(!child_force(cs, i as int));
                    }
                    out.push(c2);
                }
            } else {
                proof {
                    assert(!child_force(cs, i as int));
                }
                out.push(c2);
            }
            idx = idx1;
            i = i + 1;
        }
        let tree = FmtNode {
            kind: node.kind,
            text: node.text.clone(),
            children: out,
            preserve: node.preserve,
        };
        proof {
            assert(pres_rel(*node, tree, false));
        }
        (tree, idx, pmh)
    }
}

/// Runs the preserve pass over the tree, tagging every node that lies in an
/// open preserve region, and hands back the root's own verdict.
pub fn preserve_pass(node: &mut FmtNode) -> (d: PreserveData)
    ensures
        pres_rel(*old(node), *final(node), false),
        d.preserve_idx as int == pres_idx(*old(node)),
        d.parent_must_handle == pres_pmh(*old(node)),
{
    let (tree, idx, pmh) = pres_go(node);
    *node = tree;
    PreserveData::new(idx, pmh)
}

} // verus!
