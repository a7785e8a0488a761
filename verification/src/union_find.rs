//! A union-find forest over dense body indices, used to build islands.
//!
//! The forest maintains the invariant that every parent link points to an
//! index no larger than its child, which both bounds `find`'s walk and gives
//! the root function a well-founded definition. Merging attaches the larger
//! root below the smaller one, so the representative of an island is its
//! smallest member.

use vstd::prelude::*;

verus! {

/// One node of the union-find forest.
#[derive(Clone, Copy, PartialEq, Eq, Structural, Debug)]
pub struct UnionFindSet {
    /// Parent link; a node whose parent is itself is a root.
    pub parent: usize,
}

impl UnionFindSet {
    /// A fresh singleton node rooted at `k`.
    pub fn new(k: usize) -> (r: UnionFindSet)
        ensures
            r.parent == k,
    {
        UnionFindSet { parent: k }
    }

    /// Reset the node to a singleton rooted at `k`.
    pub fn reinit(&mut self, k: usize)
        ensures
            final(self).parent == k,
    {
        self.parent = k;
    }
}

/// Every parent link points downward (or to itself).
pub open spec fn wf_forest(s: Seq<UnionFindSet>) -> bool {
    forall|i: int| 0 <= i < s.len() ==> #[trigger] s[i].parent <= i
}

/// The representative of `i`: follow parent links until a fixpoint.
pub open spec fn root_of(s: Seq<UnionFindSet>, i: int) -> int
    decreases i,
    when 0 <= i < s.len() && wf_forest(s)
{
    if s[i].parent as int == i {
        i
    } else {
        root_of(s, s[i].parent as int)
    }
}

/// A representative is a root and no larger than its element.
pub proof fn lemma_root_of(s: Seq<UnionFindSet>, i: int)
    requires
        wf_forest(s),
        0 <= i < s.len(),
    ensures
        0 <= root_of(s, i) <= i,
        s[root_of(s, i)].parent as int == root_of(s, i),
    decreases i,
{
    if s[i].parent as int != i {
        lemma_root_of(s, s[i].parent as int);
    }
}

/// The representative of `k` after the partition of `s` is re-rooted by
/// merging the classes of `a` and `b` at the smaller of their roots.
pub open spec fn merged_root(s: Seq<UnionFindSet>, a: int, b: int, k: int) -> int {
    let ra = root_of(s, a);
    let rb = root_of(s, b);
    let m = if ra <= rb { ra } else { rb };
    if root_of(s, k) == ra || root_of(s, k) == rb {
        m
    } else {
        root_of(s, k)
    }
}

/// Re-pointing the root `mm` at a smaller root `rt` moves exactly the class
/// of `mm` under `rt` and leaves every other class unchanged.
proof fn lemma_root_after_link(
    s0: Seq<UnionFindSet>,
    s1: Seq<UnionFindSet>,
    mm: int,
    rt: int,
    k: int,
)
    requires
        wf_forest(s0),
        0 <= rt < mm < s0.len(),
        s0[mm].parent as int == mm,
        s0[rt].parent as int == rt,
        s1 == s0.update(mm, UnionFindSet { parent: rt as usize }),
        wf_forest(s1),
        0 <= k < s0.len(),
    ensures
        root_of(s1, k) == (if root_of(s0, k) == mm { rt } else { root_of(s0, k) }),
    decreases k,
{
    if k == mm {
        assert(s1[k].parent as int == rt);
        assert(root_of(s1, rt) == rt);
    } else {
        if s0[k].parent as int == k {
            assert(root_of(s1, k) == k);
        } else {
            lemma_root_after_link(s0, s1, mm, rt, s0[k].parent as int);
        }
    }
}

/// The representative of `i`, found by walking parent links.
pub fn find(sets: &Vec<UnionFindSet>, i: usize) -> (r: usize)
    requires
        wf_forest(sets@),
        i < sets.len(),
    ensures
        r as int == root_of(sets@, i as int),
        r <= i,
        sets@[r as int].parent == r,
{
    let mut j: usize = i;
    while sets[j].parent != j
        invariant
            wf_forest(sets@),
            j < sets@.len(),
            j <= i,
            root_of(sets@, j as int) == root_of(sets@, i as int),
        decreases j,
    {
        j = sets[j].parent;
    }
    j
}

/// Merge the classes of `a` and `b`; the surviving representative is the
/// smaller of the two roots. Every class is mapped as `merged_root` says.
pub fn union(sets: &mut Vec<UnionFindSet>, a: usize, b: usize)
    requires
        wf_forest(old(sets)@),
        a < old(sets).len(),
        b < old(sets).len(),
    ensures
        final(sets)@.len() == old(sets)@.len(),
        wf_forest(final(sets)@),
        forall|k: int|
            0 <= k < old(sets)@.len() ==> root_of(final(sets)@, k) == merged_root(
                old(sets)@,
                a as int,
                b as int,
                k,
            ),
{
    let ra = find(sets, a);
    let rb = find(sets, b);
    if ra == rb {
        return ;
    }
    let ghost s0 = sets@;
    let mm: usize = if ra < rb { rb } else { ra };
    let rt: usize = if ra < rb { ra } else { rb };
    sets.set(mm, UnionFindSet { parent: rt });
    proof {
        assert(wf_forest(sets@)) by {
            assert forall|i: int| 0 <= i < sets@.len() implies #[trigger] sets@[i].parent
                <= i by {
                if i != mm as int {
                    assert(sets@[i] == s0[i]);
                }
            }
        }
        assert forall|k: int| 0 <= k < s0.len() implies root_of(sets@, k) == merged_root(
            s0,
            a as int,
            b as int,
            k,
        ) by {
            lemma_root_after_link(s0, sets@, mm as int, rt as int, k);
        }
    }
}

}
