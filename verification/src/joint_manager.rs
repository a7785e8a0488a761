//! Creation and removal of joints, with a per-body reverse index.
//!
//! Joints live in caller-owned arenas; the manager stores constraints that
//! refer to them by handle. The joint table is keyed by a stable integer
//! derived from the handle (even keys for ball-in-socket joints, odd keys
//! for fixed joints), and the reverse index maps each body handle to the
//! joint constraints touching that body.

use vstd::prelude::*;
use crate::body::RigidBody;
use crate::constraint::Constraint;
use crate::ball_in_socket::BallInSocket;
use crate::fixed::Fixed;
use crate::activation_manager::{ActivationManager, wake_after};

verus! {

/// The stable table key of a joint constraint; a contact has none.
pub open spec fn joint_key_of(c: Constraint) -> int {
    match c {
        Constraint::BallInSocket(id) => 2 * id,
        Constraint::Fixed(id) => 2 * id + 1,
        Constraint::RBRB(_, _, _) => -1,
    }
}

/// No two table entries share a key.
pub open spec fn keys_distinct(s: Seq<(u64, Constraint)>) -> bool {
    forall|i: int, j: int| 0 <= i < j < s.len() ==> (#[trigger] s[i]).0 != (#[trigger] s[j]).0
}

/// Some table entry carries the key `k`.
pub open spec fn has_key(s: Seq<(u64, Constraint)>, k: int) -> bool {
    exists|i: int| 0 <= i < s.len() && (#[trigger] s[i]).0 as int == k
}

/// An anchor handle is either absent or within the body arena.
pub open spec fn anchor_ok(b: Option<usize>, nbodies: int) -> bool {
    b matches Some(h) ==> h < nbodies
}

/// Every anchor of every joint in both arenas points into the body arena.
pub open spec fn arenas_ok(bis: Seq<BallInSocket>, fixeds: Seq<Fixed>, nbodies: int) -> bool {
    &&& forall|i: int|
        0 <= i < bis.len() ==> anchor_ok((#[trigger] bis[i]).anchor1.body, nbodies) && anchor_ok(
            bis[i].anchor2.body,
            nbodies,
        )
    &&& forall|i: int|
        0 <= i < fixeds.len() ==> anchor_ok((#[trigger] fixeds[i]).anchor1.body, nbodies)
            && anchor_ok(fixeds[i].anchor2.body, nbodies)
}

/// `b` is an anchor body of the joint behind `c`.
pub open spec fn anchors_of(
    c: Constraint,
    bis: Seq<BallInSocket>,
    fixeds: Seq<Fixed>,
    b: int,
) -> bool {
    match c {
        Constraint::BallInSocket(id) => id < bis.len() && (bis[id as int].anchor1.body == Some(
            b as usize,
        ) || bis[id as int].anchor2.body == Some(b as usize)),
        Constraint::Fixed(id) => id < fixeds.len() && (fixeds[id as int].anchor1.body == Some(
            b as usize,
        ) || fixeds[id as int].anchor2.body == Some(b as usize)),
        Constraint::RBRB(_, _, _) => false,
    }
}

/// The reverse list of body `h`, empty when the index is shorter.
pub open spec fn list_at(lists: Seq<Vec<Constraint>>, h: int) -> Seq<Constraint> {
    if 0 <= h < lists.len() {
        lists[h]@
    } else {
        Seq::empty()
    }
}

/// What one add appends to the reverse list of body `i`: the new
/// constraint once for each of its anchors attached to `i`.
pub open spec fn appended_for(i: int, b: Option<usize>, c: Constraint) -> Seq<Constraint> {
    if b == Some(i as usize) {
        seq![c]
    } else {
        Seq::empty()
    }
}

/// First anchor body of the joint behind `c`.
pub open spec fn joint_anchor1(
    c: Constraint,
    bis: Seq<BallInSocket>,
    fixeds: Seq<Fixed>,
) -> Option<usize> {
    match c {
        Constraint::BallInSocket(id) => bis[id as int].anchor1.body,
        Constraint::Fixed(id) => fixeds[id as int].anchor1.body,
        Constraint::RBRB(_, _, _) => None,
    }
}

/// Second anchor body of the joint behind `c`.
pub open spec fn joint_anchor2(
    c: Constraint,
    bis: Seq<BallInSocket>,
    fixeds: Seq<Fixed>,
) -> Option<usize> {
    match c {
        Constraint::BallInSocket(id) => bis[id as int].anchor2.body,
        Constraint::Fixed(id) => fixeds[id as int].anchor2.body,
        Constraint::RBRB(_, _, _) => None,
    }
}

/// `newl` is `oldl` with every entry keyed `k` taken out: nothing else was
/// dropped, nothing was added.
pub open spec fn filtered_of(newl: Seq<Constraint>, oldl: Seq<Constraint>, k: int) -> bool {
    &&& forall|j: int|
        0 <= j < newl.len() ==> oldl.contains(#[trigger] newl[j]) && joint_key_of(newl[j]) != k
    &&& forall|j: int|
        0 <= j < oldl.len() && joint_key_of(#[trigger] oldl[j]) != k ==> newl.contains(oldl[j])
}

/// The position of the entry keyed `k`.
pub open spec fn idx_of(s: Seq<(u64, Constraint)>, k: int) -> int {
    choose|i: int| 0 <= i < s.len() && (#[trigger] s[i]).0 as int == k
}

/// The table entry keyed `k`.
pub open spec fn val_of(s: Seq<(u64, Constraint)>, k: int) -> Constraint {
    s[idx_of(s, k)].1
}

/// With distinct keys, an entry is the unique witness of its key.
proof fn lemma_val_of(s: Seq<(u64, Constraint)>, i: int)
    requires
        keys_distinct(s),
        0 <= i < s.len(),
    ensures
        has_key(s, s[i].0 as int),
        idx_of(s, s[i].0 as int) == i,
        val_of(s, s[i].0 as int) == s[i].1,
{
    assert(has_key(s, s[i].0 as int));
    let j = idx_of(s, s[i].0 as int);
    if j != i {
        if j < i {
            assert(s[j].0 != s[i].0);
        } else {
            assert(s[i].0 != s[j].0);
        }
    }
}

/// Removing the entry at `i` keeps every other key present.
proof fn lemma_has_key_remove(s: Seq<(u64, Constraint)>, i: int, k: int)
    requires
        0 <= i < s.len(),
        has_key(s, k),
        s[i].0 as int != k,
    ensures
        has_key(s.remove(i), k),
{
    let j = choose|j: int| 0 <= j < s.len() && (#[trigger] s[j]).0 as int == k;
    if j < i {
        assert(s.remove(i)[j].0 as int == k);
    } else {
        assert(s.remove(i)[j - 1].0 as int == k);
    }
}

/// Structure that handles creation and removal of joints.
pub struct JointManager {
    /// The joint table: key and joint constraint.
    pub joints: Vec<(u64, Constraint)>,
    /// Reverse index: the joint constraints touching each body handle.
    pub body2joints: Vec<Vec<Constraint>>,
}

impl JointManager {
    /// Structural well-formedness: distinct keys, each encoding its entry.
    pub open spec fn wf(self) -> bool {
        &&& keys_distinct(self.joints@)
        &&& forall|i: int|
            0 <= i < self.joints@.len() ==> (#[trigger] self.joints@[i]).0 as int == joint_key_of(
                self.joints@[i].1,
            )
    }

    /// Every table entry's handle points into its arena.
    pub open spec fn ids_in_range(self, nbis: int, nfixed: int) -> bool {
        forall|i: int|
            0 <= i < self.joints@.len() ==> match (#[trigger] self.joints@[i]).1 {
                Constraint::BallInSocket(id) => id < nbis,
                Constraint::Fixed(id) => id < nfixed,
                Constraint::RBRB(_, _, _) => false,
            }
    }

    /// The reverse index is consistent: every listed constraint is still in
    /// the table (no dangling entries) and lists only bodies it anchors.
    pub open spec fn reverse_consistent(
        self,
        bis: Seq<BallInSocket>,
        fixeds: Seq<Fixed>,
    ) -> bool {
        forall|b: int, i: int|
            0 <= b < self.body2joints@.len() && 0 <= i < self.body2joints@[b]@.len() ==> has_key(
                self.joints@,
                joint_key_of(#[trigger] self.body2joints@[b]@[i]),
            ) && anchors_of(self.body2joints@[b]@[i], bis, fixeds, b)
    }

    /// Creates a new `JointManager`.
    pub fn new() -> (r: JointManager)
        ensures
            r.joints@.len() == 0,
            r.body2joints@.len() == 0,
            r.wf(),
    {
        JointManager { joints: Vec::new(), body2joints: Vec::new() }
    }

    /// Joints handled by this manager.
    pub fn joints(&self) -> (r: &Vec<(u64, Constraint)>)
        ensures
            r@ == self.joints@,
    {
        &self.joints
    }

    /// List of joints attached to a specific body.
    pub fn joints_with_body(&self, body: usize) -> (r: Option<&Vec<Constraint>>)
        ensures
            match r {
                Some(v) => body < self.body2joints@.len() && v@ == self.body2joints@[
                    body as int
                ]@,
                None => body >= self.body2joints@.len(),
            },
    {
        if body < self.body2joints.len() {
            Some(&self.body2joints[body])
        } else {
            None
        }
    }

    /// Position of the entry keyed `k` in the joint table, if any.
    fn find_idx(&self, k: u64) -> (r: Option<usize>)
        ensures
            match r {
                Some(i) => i < self.joints@.len() && self.joints@[i as int].0 == k,
                None => !has_key(self.joints@, k as int),
            },
    {
        let mut i: usize = 0;
        while i < self.joints.len()
            invariant
                i <= self.joints@.len(),
                forall|j: int| 0 <= j < i ==> (#[trigger] self.joints@[j]).0 != k,
            decreases self.joints@.len() - i,
        {
            if self.joints[i].0 == k {
                return Some(i);
            }
            i += 1;
        }
        None
    }

    /// Grow the reverse index so that every handle below `n` has a list.
    fn ensure_body_lists(&mut self, n: usize)
        ensures
            final(self).joints@ == old(self).joints@,
            final(self).body2joints@.len() == if old(self).body2joints@.len() >= n {
                old(self).body2joints@.len() as int
            } else {
                n as int
            },
            forall|i: int|
                0 <= i < final(self).body2joints@.len() ==> (#[trigger] final(self).body2joints@[i])@ == list_at(old(self).body2joints@, i),
    {
        while self.body2joints.len() < n
            invariant
                self.joints@ == old(self).joints@,
                old(self).body2joints@.len() <= self.body2joints@.len(),
                self.body2joints@.len() <= if old(self).body2joints@.len() >= n {
                    old(self).body2joints@.len() as int
                } else {
                    n as int
                },
                forall|i: int|
                    0 <= i < self.body2joints@.len() ==> (#[trigger] self.body2joints@[i])@
                        == list_at(old(self).body2joints@, i),
            decreases n - self.body2joints@.len(),
        {
            self.body2joints.push(Vec::new());
        }
    }

    /// Append `c` to the reverse list of body `h`.
    fn push_to_list(&mut self, h: usize, c: Constraint)
        requires
            h < old(self).body2joints@.len(),
        ensures
            final(self).joints@ == old(self).joints@,
            final(self).body2joints@.len() == old(self).body2joints@.len(),
            (final(self).body2joints@[h as int])@ == (old(self).body2joints@[h as int])@.push(c),
            forall|i: int|
                0 <= i < old(self).body2joints@.len() && i != h as int ==> (#[trigger] final(self).body2joints@[i])@ == (old(self).body2joints@[i])@,
    {
        let mut l = copy_constraints(&self.body2joints[h]);
        l.push(c);
        self.body2joints.set(h, l);
    }

    /// Wake the anchor body behind `b`, if any.
    fn wake_anchor(
        &self,
        b: Option<usize>,
        bodies: &Vec<RigidBody>,
        activation: &mut ActivationManager,
    )
        requires
            anchor_ok(b, bodies@.len() as int),
        ensures
            *final(activation) == (ActivationManager {
                to_activate: final(activation).to_activate,
                ..*old(activation)
            }),
            final(activation).to_activate@ == wake_after(
                old(activation).to_activate@,
                b,
                bodies@,
            ),
    {
        match b {
            Some(h) => activation.will_activate(bodies, h),
            None => {},
        }
    }

    /// Add a `BallInSocket` joint to this manager.
    ///
    /// This will force the activation of the two objects attached to the
    /// joint. Nothing changes when the joint is already present.
    pub fn add_ball_in_socket(
        &mut self,
        jid: usize,
        bis: &Vec<BallInSocket>,
        fixeds: &Vec<Fixed>,
        bodies: &Vec<RigidBody>,
        activation: &mut ActivationManager,
    )
        requires
            old(self).wf(),
            old(self).ids_in_range(bis@.len() as int, fixeds@.len() as int),
            old(self).reverse_consistent(bis@, fixeds@),
            arenas_ok(bis@, fixeds@, bodies@.len() as int),
            jid < bis@.len(),
            jid < 0x4000_0000_0000_0000,
        ensures
            final(self).wf(),
            final(self).ids_in_range(bis@.len() as int, fixeds@.len() as int),
            final(self).reverse_consistent(bis@, fixeds@),
            has_key(old(self).joints@, 2 * jid) ==> *final(self) == *old(self) && *final(activation) == *old(activation),
            !has_key(old(self).joints@, 2 * jid) ==> {
                &&& final(self).joints@ == old(self).joints@.push(
                    (((2 * jid) as u64), Constraint::BallInSocket(jid)),
                )
                &&& final(activation).to_activate@ == wake_after(
                    wake_after(
                        old(activation).to_activate@,
                        bis@[jid as int].anchor1.body,
                        bodies@,
                    ),
                    bis@[jid as int].anchor2.body,
                    bodies@,
                )
                &&& *final(activation) == (ActivationManager {
                    to_activate: final(activation).to_activate,
                    ..*old(activation)
                })
                &&& final(self).body2joints@.len() == if old(self).body2joints@.len() as int
                    >= bodies@.len() {
                    old(self).body2joints@.len() as int
                } else {
                    bodies@.len() as int
                }
                &&& forall|i: int|
                    0 <= i < final(self).body2joints@.len() ==> (#[trigger] final(self).body2joints@[i])@ == list_at(old(self).body2joints@, i) + appended_for(
                        i,
                        bis@[jid as int].anchor1.body,
                        Constraint::BallInSocket(jid),
                    ) + appended_for(i, bis@[jid as int].anchor2.body, Constraint::BallInSocket(jid))
            },
    {
        let k: u64 = (jid as u64) * 2;
        let c = Constraint::BallInSocket(jid);
        match self.find_idx(k) {
            Some(_) => {},
            None => {
                let a1 = bis[jid].anchor1.body;
                let a2 = bis[jid].anchor2.body;
                proof {
                    assert(anchor_ok(bis@[jid as int].anchor1.body, bodies@.len() as int));
                    assert(anchor_ok(bis@[jid as int].anchor2.body, bodies@.len() as int));
                }
                self.add_entry(k, c, a1, a2, bodies, activation, Ghost(bis@), Ghost(fixeds@));
            },
        }
    }

    /// Add a `Fixed` joint to this manager.
    ///
    /// This will force the activation of the two objects attached to the
    /// joint. Nothing changes when the joint is already present.
    pub fn add_fixed(
        &mut self,
        jid: usize,
        bis: &Vec<BallInSocket>,
        fixeds: &Vec<Fixed>,
        bodies: &Vec<RigidBody>,
        activation: &mut ActivationManager,
    )
        requires
            old(self).wf(),
            old(self).ids_in_range(bis@.len() as int, fixeds@.len() as int),
            old(self).reverse_consistent(bis@, fixeds@),
            arenas_ok(bis@, fixeds@, bodies@.len() as int),
            jid < fixeds@.len(),
            jid < 0x4000_0000_0000_0000,
        ensures
            final(self).wf(),
            final(self).ids_in_range(bis@.len() as int, fixeds@.len() as int),
            final(self).reverse_consistent(bis@, fixeds@),
            has_key(old(self).joints@, 2 * jid + 1) ==> *final(self) == *old(self) && *final(activation) == *old(activation),
            !has_key(old(self).joints@, 2 * jid + 1) ==> {
                &&& final(self).joints@ == old(self).joints@.push(
                    (((2 * jid + 1) as u64), Constraint::Fixed(jid)),
                )
                &&& final(activation).to_activate@ == wake_after(
                    wake_after(
                        old(activation).to_activate@,
                        fixeds@[jid as int].anchor1.body,
                        bodies@,
                    ),
                    fixeds@[jid as int].anchor2.body,
                    bodies@,
                )
                &&& *final(activation) == (ActivationManager {
                    to_activate: final(activation).to_activate,
                    ..*old(activation)
                })
                &&& final(self).body2joints@.len() == if old(self).body2joints@.len() as int
                    >= bodies@.len() {
                    old(self).body2joints@.len() as int
                } else {
                    bodies@.len() as int
                }
                &&& forall|i: int|
                    0 <= i < final(self).body2joints@.len() ==> (#[trigger] final(self).body2joints@[i])@ == list_at(old(self).body2joints@, i) + appended_for(
                        i,
                        fixeds@[jid as int].anchor1.body,
                        Constraint::Fixed(jid),
                    ) + appended_for(i, fixeds@[jid as int].anchor2.body, Constraint::Fixed(jid))
            },
    {
        let k: u64 = (jid as u64) * 2 + 1;
        let c = Constraint::Fixed(jid);
        match self.find_idx(k) {
            Some(_) => {},
            None => {
                let a1 = fixeds[jid].anchor1.body;
                let a2 = fixeds[jid].anchor2.body;
                proof {
                    assert(anchor_ok(fixeds@[jid as int].anchor1.body, bodies@.len() as int));
                    assert(anchor_ok(fixeds@[jid as int].anchor2.body, bodies@.len() as int));
                }
                self.add_entry(k, c, a1, a2, bodies, activation, Ghost(bis@), Ghost(fixeds@));
            },
        }
    }

    /// Insert a joint entry known to be absent and index it under both of
    /// its anchor bodies, waking them.
    fn add_entry(
        &mut self,
        k: u64,
        c: Constraint,
        a1: Option<usize>,
        a2: Option<usize>,
        bodies: &Vec<RigidBody>,
        activation: &mut ActivationManager,
        Ghost(bis): Ghost<Seq<BallInSocket>>,
        Ghost(fixeds): Ghost<Seq<Fixed>>,
    )
        requires
            old(self).wf(),
            old(self).ids_in_range(bis.len() as int, fixeds.len() as int),
            old(self).reverse_consistent(bis, fixeds),
            !has_key(old(self).joints@, k as int),
            k as int == joint_key_of(c),
            anchor_ok(a1, bodies@.len() as int),
            anchor_ok(a2, bodies@.len() as int),
            match c {
                Constraint::BallInSocket(id) => id < bis.len() && a1 == bis[id as int].anchor1.body
                    && a2 == bis[id as int].anchor2.body,
                Constraint::Fixed(id) => id < fixeds.len() && a1 == fixeds[id as int].anchor1.body
                    && a2 == fixeds[id as int].anchor2.body,
                Constraint::RBRB(_, _, _) => false,
            },
        ensures
            final(self).wf(),
            final(self).ids_in_range(bis.len() as int, fixeds.len() as int),
            final(self).reverse_consistent(bis, fixeds),
            final(self).joints@ == old(self).joints@.push((k, c)),
            final(activation).to_activate@ == wake_after(
                wake_after(old(activation).to_activate@, a1, bodies@),
                a2,
                bodies@,
            ),
            *final(activation) == (ActivationManager {
                to_activate: final(activation).to_activate,
                ..*old(activation)
            }),
            final(self).body2joints@.len() == if old(self).body2joints@.len() as int
                >= bodies@.len() {
                old(self).body2joints@.len() as int
            } else {
                bodies@.len() as int
            },
            forall|i: int|
                0 <= i < final(self).body2joints@.len() ==> (#[trigger] final(self).body2joints@[i])@ == list_at(old(self).body2joints@, i) + appended_for(i, a1, c)
                    + appended_for(i, a2, c),
    {
        self.joints.push((k, c));
        self.ensure_body_lists(bodies.len());
        let ghost grown = self.body2joints@;
        self.wake_anchor(a1, bodies, activation);
        match a1 {
            Some(h) => self.push_to_list(h, c),
            None => {},
        }
        let ghost mid = self.body2joints@;
        proof {
            assert(grown.len() == self.body2joints.len());
            lemma_one_push(grown, mid, a1, c);
        }
        self.wake_anchor(a2, bodies, activation);
        match a2 {
            Some(h) => self.push_to_list(h, c),
            None => {},
        }
        proof {
            lemma_one_push(mid, self.body2joints@, a2, c);
            let s0 = old(self).joints@;
            let s1 = self.joints@;
            assert forall|i: int|
                0 <= i < self.body2joints@.len() implies (
            #[trigger] self.body2joints@[i])@ == list_at(old(self).body2joints@, i)
                + appended_for(i, a1, c) + appended_for(i, a2, c) by {
                assert(grown[i]@ == list_at(old(self).body2joints@, i));
                assert(mid[i]@ == grown[i]@ + appended_for(i, a1, c));
                assert(self.body2joints@[i]@ == mid[i]@ + appended_for(i, a2, c));
            }
            assert forall|i: int, j: int| 0 <= i < j < s1.len() implies (
            #[trigger] s1[i]).0 != (#[trigger] s1[j]).0 by {
                if j < s0.len() {
                    assert(s1[i] == s0[i]);
                    assert(s1[j] == s0[j]);
                } else {
                    assert(s1[i] == s0[i]);
                    assert(!(0 <= i < s0.len() && s0[i].0 as int == k as int));
                }
            }
            assert forall|b: int, i: int|
                0 <= b < self.body2joints@.len() && 0 <= i
                    < self.body2joints@[b]@.len() implies has_key(
                self.joints@,
                joint_key_of(#[trigger] self.body2joints@[b]@[i]),
            ) && anchors_of(self.body2joints@[b]@[i], bis, fixeds, b) by {
                let l = self.body2joints@[b]@;
                let base = list_at(old(self).body2joints@, b);
                assert(l == base + appended_for(b, a1, c) + appended_for(b, a2, c));
                if i < base.len() {
                    assert(l[i] == base[i]);
                    assert(0 <= b < old(self).body2joints@.len());
                    assert(has_key(s0, joint_key_of(old(self).body2joints@[b]@[i])));
                    lemma_has_key_push(s0, (k, c), joint_key_of(l[i]));
                } else {
                    assert(l[i] == c);
                    assert(s1[s0.len() as int].0 as int == k as int);
                    assert(has_key(s1, k as int));
                }
            }
        }
    }
}

/// After pushing a constraint to (at most) one body's reverse list, every
/// list equals its old value extended by what the anchor contributes to it.
proof fn lemma_one_push(
    before: Seq<Vec<Constraint>>,
    after: Seq<Vec<Constraint>>,
    b: Option<usize>,
    c: Constraint,
)
    requires
        after.len() == before.len(),
        before.len() <= usize::MAX as int,
        match b {
            Some(h) => h < before.len() && after[h as int]@ == before[h as int]@.push(c) && (
            forall|i: int| 0 <= i < before.len() && i != h as int ==> (#[trigger] after[i])@ == before[i]@),
            None => after == before,
        },
    ensures
        forall|i: int|
            0 <= i < before.len() ==> (#[trigger] after[i])@ == before[i]@ + appended_for(
                i,
                b,
                c,
            ),
{
    assert forall|i: int|
        0 <= i < before.len() implies (#[trigger] after[i])@ == before[i]@ + appended_for(
        i,
        b,
        c,
    ) by {
        match b {
            Some(h) => {
                if i == h as int {
                    assert(after[i]@ =~= before[i]@ + appended_for(i, b, c));
                } else {
                    assert(b != Some(i as usize));
                    assert(after[i]@ =~= before[i]@ + appended_for(i, b, c));
                }
            },
            None => {
                assert(after[i]@ =~= before[i]@ + appended_for(i, b, c));
            },
        }
    }
}

/// A key present in a table stays present when an entry is appended.
proof fn lemma_has_key_push(s: Seq<(u64, Constraint)>, e: (u64, Constraint), k: int)
    requires
        has_key(s, k),
    ensures
        has_key(s.push(e), k),
{
    let i = choose|i: int| 0 <= i < s.len() && (#[trigger] s[i]).0 as int == k;
    assert(s.push(e)[i].0 as int == k);
}

/// A joint that is gone from the table leaves no trace in a consistent
/// reverse index: once a joint has been added and removed again, no body's
/// list holds an entry of it, and no entry dangles.
pub proof fn lemma_removed_joint_leaves_no_reverse_entry(
    m: JointManager,
    bis: Seq<BallInSocket>,
    fixeds: Seq<Fixed>,
    jkey: int,
)
    requires
        m.reverse_consistent(bis, fixeds),
        !has_key(m.joints@, jkey),
    ensures
        forall|b: int, i: int|
            0 <= b < m.body2joints@.len() && 0 <= i < m.body2joints@[b]@.len()
                ==> joint_key_of(#[trigger] m.body2joints@[b]@[i]) != jkey,
{
    assert forall|b: int, i: int|
        0 <= b < m.body2joints@.len() && 0 <= i
            < m.body2joints@[b]@.len() implies joint_key_of(#[trigger] m.body2joints@[b]@[i])
        != jkey by {
        assert(has_key(m.joints@, joint_key_of(m.body2joints@[b]@[i])));
    }
}

/// A fresh copy of a constraint list.
fn copy_constraints(v: &Vec<Constraint>) -> (r: Vec<Constraint>)
    ensures
        r@ == v@,
{
    let mut r: Vec<Constraint> = Vec::new();
    let mut i: usize = 0;
    while i < v.len()
        invariant
            i <= v@.len(),
            r@ == v@.subrange(0, i as int),
        decreases v@.len() - i,
    {
        r.push(v[i]);
        i += 1;
    }
    proof {
        assert(r@ =~= v@);
    }
    r
}

/// A joint is stale when the user has edited it since the last
/// reconciliation.
pub open spec fn stale(c: Constraint, bis: Seq<BallInSocket>, fixeds: Seq<Fixed>) -> bool {
    match c {
        Constraint::BallInSocket(id) => !bis[id as int].up_to_date,
        Constraint::Fixed(id) => !fixeds[id as int].up_to_date,
        Constraint::RBRB(_, _, _) => false,
    }
}

/// If the anchor names a movable sleeping body, that body is in the wake
/// queue.
pub open spec fn anchor_woken(b: Option<usize>, bodies: Seq<RigidBody>, q: Seq<usize>) -> bool {
    match b {
        Some(h) => (bodies[h as int].movable && !(bodies[h as int].state is Active))
            ==> q.contains(h),
        None => true,
    }
}

/// A stale joint has both of its anchor bodies scheduled for wake-up.
pub open spec fn wakes_for(
    c: Constraint,
    bis: Seq<BallInSocket>,
    fixeds: Seq<Fixed>,
    bodies: Seq<RigidBody>,
    q: Seq<usize>,
) -> bool {
    stale(c, bis, fixeds) ==> anchor_woken(joint_anchor1(c, bis, fixeds), bodies, q)
        && anchor_woken(joint_anchor2(c, bis, fixeds), bodies, q)
}

/// Whether `c` is the joint behind the table key `k`.
fn constraint_has_key(c: &Constraint, k: u64) -> (r: bool)
    ensures
        r == (joint_key_of(*c) == k as int),
{
    match c {
        Constraint::BallInSocket(id) => k % 2 == 0 && *id as u64 == k / 2,
        Constraint::Fixed(id) => k % 2 == 1 && *id as u64 == k / 2,
        Constraint::RBRB(_, _, _) => false,
    }
}

/// A copy of `list` with every entry keyed `k` taken out.
fn remove_key_from_list(list: &Vec<Constraint>, k: u64) -> (r: Vec<Constraint>)
    ensures
        filtered_of(r@, list@, k as int),
{
    let mut r: Vec<Constraint> = Vec::new();
    let mut i: usize = 0;
    while i < list.len()
        invariant
            i <= list@.len(),
            forall|j: int|
                0 <= j < r@.len() ==> list@.contains(#[trigger] r@[j]) && joint_key_of(r@[j])
                    != k as int,
            forall|j: int|
                0 <= j < i && joint_key_of(#[trigger] list@[j]) != k as int ==> r@.contains(
                    list@[j],
                ),
        decreases list@.len() - i,
    {
        let keep = !constraint_has_key(&list[i], k);
        if keep {
            let ghost r0 = r@;
            r.push(list[i]);
            proof {
                assert(r@[r0.len() as int] == list@[i as int]);
                assert(list@.contains(list@[i as int]));
                assert forall|j: int|
                    0 <= j < i + 1 && joint_key_of(#[trigger] list@[j]) != k as int implies r@
                    .contains(list@[j]) by {
                    if j < i {
                        let w = choose|w: int| 0 <= w < r0.len() && r0[w] == list@[j];
                        assert(r@[w] == list@[j]);
                    } else {
                        assert(r@[r0.len() as int] == list@[j]);
                    }
                }
            }
        }
        i += 1;
    }
    r
}

/// Taking entries keyed `k` out twice in a row is the same as once.
proof fn lemma_filtered_trans(l2: Seq<Constraint>, l1: Seq<Constraint>, l0: Seq<Constraint>, k: int)
    requires
        filtered_of(l2, l1, k),
        filtered_of(l1, l0, k),
    ensures
        filtered_of(l2, l0, k),
{
    assert forall|j: int| 0 <= j < l2.len() implies l0.contains(#[trigger] l2[j])
        && joint_key_of(l2[j]) != k by {
        let w = choose|w: int| 0 <= w < l1.len() && l1[w] == l2[j];
        assert(l0.contains(l1[w]));
    }
    assert forall|j: int|
        0 <= j < l0.len() && joint_key_of(#[trigger] l0[j]) != k implies l2.contains(l0[j]) by {
        assert(l1.contains(l0[j]));
        let w = choose|w: int| 0 <= w < l1.len() && l1[w] == l0[j];
        assert(l2.contains(l1[w]));
    }
}

/// The queue before a wake request is a prefix of the queue after it.
proof fn lemma_wake_prefix(q: Seq<usize>, b: Option<usize>, bodies: Seq<RigidBody>)
    ensures
        q.is_prefix_of(wake_after(q, b, bodies)),
{
    let q2 = wake_after(q, b, bodies);
    assert(q =~= q2.subrange(0, q.len() as int));
}

/// Prefixes chain.
proof fn lemma_prefix_trans(a: Seq<usize>, b: Seq<usize>, c: Seq<usize>)
    requires
        a.is_prefix_of(b),
        b.is_prefix_of(c),
    ensures
        a.is_prefix_of(c),
{
    assert(a =~= c.subrange(0, a.len() as int));
}

impl JointManager {
    /// Removes the joint keyed `jkey` from this manager, cleaning the
    /// reverse index of both anchor bodies.
    ///
    /// This will force the activation of the two objects attached to the
    /// joint. Nothing changes when no such joint is present.
    pub fn remove_joint(
        &mut self,
        jkey: u64,
        bis: &Vec<BallInSocket>,
        fixeds: &Vec<Fixed>,
        bodies: &Vec<RigidBody>,
        activation: &mut ActivationManager,
    )
        requires
            old(self).wf(),
            old(self).ids_in_range(bis@.len() as int, fixeds@.len() as int),
            old(self).reverse_consistent(bis@, fixeds@),
            arenas_ok(bis@, fixeds@, bodies@.len() as int),
        ensures
            final(self).wf(),
            final(self).ids_in_range(bis@.len() as int, fixeds@.len() as int),
            final(self).reverse_consistent(bis@, fixeds@),
            final(self).body2joints@.len() == old(self).body2joints@.len(),
            forall|k2: int| has_key(final(self).joints@, k2) ==> has_key(old(self).joints@, k2),
            *final(activation) == (ActivationManager {
                to_activate: final(activation).to_activate,
                ..*old(activation)
            }),
            old(activation).to_activate@.is_prefix_of(final(activation).to_activate@),
            !has_key(old(self).joints@, jkey as int) ==> *final(self) == *old(self) && *final(activation) == *old(activation),
            has_key(old(self).joints@, jkey as int) ==> {
                let c = val_of(old(self).joints@, jkey as int);
                &&& !has_key(final(self).joints@, jkey as int)
                &&& final(self).joints@ == old(self).joints@.remove(
                    idx_of(old(self).joints@, jkey as int),
                )
                &&& final(activation).to_activate@ == wake_after(
                    wake_after(
                        old(activation).to_activate@,
                        joint_anchor1(c, bis@, fixeds@),
                        bodies@,
                    ),
                    joint_anchor2(c, bis@, fixeds@),
                    bodies@,
                )
                &&& forall|b: int|
                    0 <= b < old(self).body2joints@.len() ==> if joint_anchor1(c, bis@, fixeds@)
                        == Some(b as usize) || joint_anchor2(c, bis@, fixeds@) == Some(
                        b as usize,
                    ) {
                        filtered_of(
                            (#[trigger] final(self).body2joints@[b])@,
                            old(self).body2joints@[b]@,
                            jkey as int,
                        )
                    } else {
                        final(self).body2joints@[b]@ == old(self).body2joints@[b]@
                    }
            },
    {
        match self.find_idx(jkey) {
            None => {},
            Some(i) => {
                let ghost s0 = self.joints@;
                let c = self.joints[i].1;
                proof {
                    lemma_val_of(s0, i as int);
                }
                let _ = self.joints.remove(i);
                let ghost s1 = self.joints@;
                let (a1, a2) = match c {
                    Constraint::BallInSocket(id) => (bis[id].anchor1.body, bis[id].anchor2.body),
                    Constraint::Fixed(id) => (fixeds[id].anchor1.body, fixeds[id].anchor2.body),
                    Constraint::RBRB(_, _, _) => (None, None),
                };
                proof {
                    assert(a1 == joint_anchor1(c, bis@, fixeds@));
                    assert(a2 == joint_anchor2(c, bis@, fixeds@));
                    match c {
                        Constraint::BallInSocket(id) => {
                            assert(anchor_ok(bis@[id as int].anchor1.body, bodies@.len() as int));
                            assert(anchor_ok(bis@[id as int].anchor2.body, bodies@.len() as int));
                        },
                        Constraint::Fixed(id) => {
                            assert(anchor_ok(fixeds@[id as int].anchor1.body, bodies@.len() as int));
                            assert(anchor_ok(fixeds@[id as int].anchor2.body, bodies@.len() as int));
                        },
                        Constraint::RBRB(_, _, _) => {},
                    }
                    // table facts after removal
                    assert forall|p: int, q: int| 0 <= p < q < s1.len() implies (
                    #[trigger] s1[p]).0 != (#[trigger] s1[q]).0 by {
                        let p0: int = if p < i as int { p } else { p + 1 };
                        let q0: int = if q < i as int { q } else { q + 1 };
                        assert(s1[p] == s0[p0]);
                        assert(s1[q] == s0[q0]);
                    }
                    assert forall|p: int| 0 <= p < s1.len() implies (#[trigger] s1[p]).0 as int
                        == joint_key_of(s1[p].1) by {
                        let p0: int = if p < i as int { p } else { p + 1 };
                        assert(s1[p] == s0[p0]);
                    }
                    assert forall|p: int| 0 <= p < s1.len() implies match (#[trigger] s1[p]).1 {
                        Constraint::BallInSocket(id) => id < bis@.len(),
                        Constraint::Fixed(id) => id < fixeds@.len(),
                        Constraint::RBRB(_, _, _) => false,
                    } by {
                        let p0: int = if p < i as int { p } else { p + 1 };
                        assert(s1[p] == s0[p0]);
                    }
                    assert forall|k2: int| has_key(s1, k2) implies has_key(s0, k2) by {
                        let w = choose|w: int| 0 <= w < s1.len() && (#[trigger] s1[w]).0 as int
                            == k2;
                        let w0: int = if w < i as int { w } else { w + 1 };
                        assert(s0[w0] == s1[w]);
                    }
                    assert(!has_key(s1, jkey as int)) by {
                        if has_key(s1, jkey as int) {
                            let w = choose|w: int| 0 <= w < s1.len() && (#[trigger] s1[w]).0 as int
                                == jkey as int;
                            let w0: int = if w < i as int { w } else { w + 1 };
                            assert(s0[w0] == s1[w]);
                            if w0 < i as int {
                                assert(s0[w0].0 != s0[i as int].0);
                            } else {
                                assert(s0[i as int].0 != s0[w0].0);
                            }
                        }
                    }
                }
                self.wake_anchor(a1, bodies, activation);
                self.wake_anchor(a2, bodies, activation);
                let ghost lists0 = self.body2joints@;
                match a1 {
                    Some(h) => {
                        if h < self.body2joints.len() {
                            let l = remove_key_from_list(&self.body2joints[h], jkey);
                            self.body2joints.set(h, l);
                        }
                    },
                    None => {},
                }
                let ghost lists1 = self.body2joints@;
                match a2 {
                    Some(h) => {
                        if h < self.body2joints.len() {
                            let l = remove_key_from_list(&self.body2joints[h], jkey);
                            self.body2joints.set(h, l);
                        }
                    },
                    None => {},
                }
                proof {
                    let lists2 = self.body2joints@;
                    // every list is unchanged or filtered of jkey
                    assert forall|b: int| 0 <= b < lists0.len() implies filtered_of(
                        (#[trigger] lists2[b])@,
                        lists0[b]@,
                        jkey as int,
                    ) || lists2[b]@ == lists0[b]@ by {
                        if lists1[b]@ == lists0[b]@ {
                            if lists2[b]@ != lists1[b]@ {
                                assert(filtered_of(lists2[b]@, lists1[b]@, jkey as int));
                            }
                        } else {
                            assert(filtered_of(lists1[b]@, lists0[b]@, jkey as int));
                            if lists2[b]@ == lists1[b]@ {
                                assert(filtered_of(lists2[b]@, lists0[b]@, jkey as int));
                            } else {
                                assert(filtered_of(lists2[b]@, lists1[b]@, jkey as int));
                                lemma_filtered_trans(lists2[b]@, lists1[b]@, lists0[b]@, jkey as int);
                            }
                        }
                    }
                    // anchor lists are filtered, others untouched
                    assert forall|b: int| 0 <= b < lists0.len() implies if a1 == Some(b as usize)
                        || a2 == Some(b as usize) {
                        filtered_of((#[trigger] lists2[b])@, lists0[b]@, jkey as int)
                    } else {
                        lists2[b]@ == lists0[b]@
                    } by {
                        if a1 == Some(b as usize) || a2 == Some(b as usize) {
                            if lists2[b]@ == lists0[b]@ {
                                assert forall|j: int|
                                    0 <= j < lists2[b]@.len() implies lists0[b]@.contains(
                                    #[trigger] lists2[b]@[j],
                                ) && joint_key_of(lists2[b]@[j]) != jkey as int by {
                                    assert(lists0[b]@.contains(lists0[b]@[j]));
                                    // the entry survived a filtering pass of key jkey
                                    if a2 == Some(b as usize) {
                                        assert(filtered_of(lists2[b]@, lists1[b]@, jkey as int));
                                    } else {
                                        assert(filtered_of(lists1[b]@, lists0[b]@, jkey as int));
                                    }
                                }
                                assert forall|j: int|
                                    0 <= j < lists0[b]@.len() && joint_key_of(
                                        #[trigger] lists0[b]@[j],
                                    ) != jkey as int implies lists2[b]@.contains(
                                    lists0[b]@[j],
                                ) by {
                                    assert(lists2[b]@.contains(lists2[b]@[j]));
                                }
                            }
                        }
                    }
                    // the reverse index stays consistent
                    assert forall|b: int, j: int|
                        0 <= b < lists2.len() && 0 <= j < lists2[b]@.len() implies has_key(
                        s1,
                        joint_key_of(#[trigger] lists2[b]@[j]),
                    ) && anchors_of(lists2[b]@[j], bis@, fixeds@, b) by {
                        let e = lists2[b]@[j];
                        if lists2[b]@ == lists0[b]@ {
                            assert(has_key(s0, joint_key_of(e)));
                            assert(anchors_of(e, bis@, fixeds@, b));
                            // an entry keyed jkey can only sit under an anchor body
                            if joint_key_of(e) == jkey as int {
                                assert(e == c);
                                assert(a1 == Some(b as usize) || a2 == Some(b as usize));
                                assert(filtered_of(lists2[b]@, lists0[b]@, jkey as int));
                                assert(lists2[b]@.contains(e));
                                let w = choose|w: int|
                                    0 <= w < lists2[b]@.len() && lists2[b]@[w] == e;
                                assert(joint_key_of(lists2[b]@[w]) != jkey as int);
                            }
                            lemma_has_key_remove(s0, i as int, joint_key_of(e));
                        } else {
                            assert(filtered_of(lists2[b]@, lists0[b]@, jkey as int));
                            assert(lists0[b]@.contains(e));
                            let w = choose|w: int| 0 <= w < lists0[b]@.len() && lists0[b]@[w] == e;
                            assert(has_key(s0, joint_key_of(lists0[b]@[w])));
                            assert(anchors_of(lists0[b]@[w], bis@, fixeds@, b));
                            lemma_has_key_remove(s0, i as int, joint_key_of(e));
                        }
                    }
                }
            },
        }
    }

    /// Removes a `BallInSocket` joint from this manager.
    ///
    /// This will force the activation of the two objects attached to the
    /// joint.
    pub fn remove_ball_in_socket(
        &mut self,
        jid: usize,
        bis: &Vec<BallInSocket>,
        fixeds: &Vec<Fixed>,
        bodies: &Vec<RigidBody>,
        activation: &mut ActivationManager,
    )
        requires
            old(self).wf(),
            old(self).ids_in_range(bis@.len() as int, fixeds@.len() as int),
            old(self).reverse_consistent(bis@, fixeds@),
            arenas_ok(bis@, fixeds@, bodies@.len() as int),
            jid < 0x4000_0000_0000_0000,
        ensures
            final(self).wf(),
            final(self).ids_in_range(bis@.len() as int, fixeds@.len() as int),
            final(self).reverse_consistent(bis@, fixeds@),
            forall|k2: int| has_key(final(self).joints@, k2) ==> has_key(old(self).joints@, k2),
            !has_key(final(self).joints@, 2 * jid),
            *final(activation) == (ActivationManager {
                to_activate: final(activation).to_activate,
                ..*old(activation)
            }),
            old(activation).to_activate@.is_prefix_of(final(activation).to_activate@),
            !has_key(old(self).joints@, 2 * jid) ==> *final(self) == *old(self) && *final(activation) == *old(activation),
            // the removed joint's anchors are scheduled for wake-up
            has_key(old(self).joints@, 2 * jid) ==> final(activation).to_activate@ == wake_after(
                wake_after(
                    old(activation).to_activate@,
                    joint_anchor1(val_of(old(self).joints@, 2 * jid), bis@, fixeds@),
                    bodies@,
                ),
                joint_anchor2(val_of(old(self).joints@, 2 * jid), bis@, fixeds@),
                bodies@,
            ),
    {
        self.remove_joint((jid as u64) * 2, bis, fixeds, bodies, activation);
    }
}

/// Every joint in the table is reconciled.
pub open spec fn spec_all_up_to_date(
    s: Seq<(u64, Constraint)>,
    bis: Seq<BallInSocket>,
    fixeds: Seq<Fixed>,
) -> bool {
    forall|i: int|
        0 <= i < s.len() ==> !stale((#[trigger] s[i]).1, bis, fixeds)
}

/// Some prefix entry is the ball-in-socket joint with handle `id`.
pub open spec fn seen_bis(s: Seq<(u64, Constraint)>, n: int, id: int) -> bool {
    exists|j: int| 0 <= j < n && (#[trigger] s[j]).1 == Constraint::BallInSocket(id as usize)
}

/// Some prefix entry is the fixed joint with handle `id`.
pub open spec fn seen_fixed(s: Seq<(u64, Constraint)>, n: int, id: int) -> bool {
    exists|j: int| 0 <= j < n && (#[trigger] s[j]).1 == Constraint::Fixed(id as usize)
}

/// A legitimate wake-up of a bulk removal: the handle names a movable
/// sleeping body that anchors one of the removed body's joints.
pub open spec fn bulk_wake_ok(
    h: usize,
    snap: Seq<Constraint>,
    bis: Seq<BallInSocket>,
    fixeds: Seq<Fixed>,
    bodies: Seq<RigidBody>,
) -> bool {
    exists|j: int|
        0 <= j < snap.len() && (joint_anchor1(#[trigger] snap[j], bis, fixeds) == Some(h)
            || joint_anchor2(snap[j], bis, fixeds) == Some(h)) && bodies[h as int].movable && !(
        bodies[h as int].state is Active)
}

/// The wake queue after the per-tick reconciliation of the first `k`
/// table entries: each stale joint appends its two anchors' wake
/// requests, in table order.
pub open spec fn spec_update_queue(
    s: Seq<(u64, Constraint)>,
    k: int,
    q0: Seq<usize>,
    bis: Seq<BallInSocket>,
    fixeds: Seq<Fixed>,
    bodies: Seq<RigidBody>,
) -> Seq<usize>
    decreases k,
{
    if k <= 0 {
        q0
    } else {
        let q = spec_update_queue(s, k - 1, q0, bis, fixeds, bodies);
        let c = s[k - 1].1;
        if stale(c, bis, fixeds) {
            wake_after(
                wake_after(q, joint_anchor1(c, bis, fixeds), bodies),
                joint_anchor2(c, bis, fixeds),
                bodies,
            )
        } else {
            q
        }
    }
}

/// Seeing one more entry sees exactly that entry's joint in addition.
proof fn lemma_seen_bis_step(s: Seq<(u64, Constraint)>, i: int, id: int)
    requires
        0 <= i < s.len(),
    ensures
        seen_bis(s, i + 1, id) == (seen_bis(s, i, id) || s[i].1 == Constraint::BallInSocket(
            id as usize,
        )),
{
    if seen_bis(s, i + 1, id) {
        let j = choose|j: int|
            0 <= j < i + 1 && (#[trigger] s[j]).1 == Constraint::BallInSocket(id as usize);
        if j < i {
            assert(seen_bis(s, i, id));
        }
    }
    if seen_bis(s, i, id) {
        let j = choose|j: int|
            0 <= j < i && (#[trigger] s[j]).1 == Constraint::BallInSocket(id as usize);
        assert(0 <= j < i + 1 && s[j].1 == Constraint::BallInSocket(id as usize));
        assert(seen_bis(s, i + 1, id));
    }
    if s[i].1 == Constraint::BallInSocket(id as usize) {
        assert(0 <= i < i + 1 && s[i].1 == Constraint::BallInSocket(id as usize));
        assert(seen_bis(s, i + 1, id));
    }
}

/// Seeing one more entry sees exactly that entry's joint in addition.
proof fn lemma_seen_fixed_step(s: Seq<(u64, Constraint)>, i: int, id: int)
    requires
        0 <= i < s.len(),
    ensures
        seen_fixed(s, i + 1, id) == (seen_fixed(s, i, id) || s[i].1 == Constraint::Fixed(
            id as usize,
        )),
{
    if seen_fixed(s, i + 1, id) {
        let j = choose|j: int|
            0 <= j < i + 1 && (#[trigger] s[j]).1 == Constraint::Fixed(id as usize);
        if j < i {
            assert(seen_fixed(s, i, id));
        }
    }
    if seen_fixed(s, i, id) {
        let j = choose|j: int| 0 <= j < i && (#[trigger] s[j]).1 == Constraint::Fixed(id as usize);
        assert(0 <= j < i + 1 && s[j].1 == Constraint::Fixed(id as usize));
        assert(seen_fixed(s, i + 1, id));
    }
    if s[i].1 == Constraint::Fixed(id as usize) {
        assert(0 <= i < i + 1 && s[i].1 == Constraint::Fixed(id as usize));
        assert(seen_fixed(s, i + 1, id));
    }
}

/// What stays in the wake queue stays there as the queue grows.
proof fn lemma_prefix_contains(a: Seq<usize>, b: Seq<usize>, e: usize)
    requires
        a.is_prefix_of(b),
        a.contains(e),
    ensures
        b.contains(e),
{
    let w = choose|w: int| 0 <= w < a.len() && a[w] == e;
    assert(b[w] == a[w]);
}

impl JointManager {
    /// Removes every joint attached to a given rigid body.
    ///
    /// This will force the activation of every object attached to the
    /// deleted joints, and deletes the body's reverse list.
    pub fn remove(
        &mut self,
        b: usize,
        bis: &Vec<BallInSocket>,
        fixeds: &Vec<Fixed>,
        bodies: &Vec<RigidBody>,
        activation: &mut ActivationManager,
    )
        requires
            old(self).wf(),
            old(self).ids_in_range(bis@.len() as int, fixeds@.len() as int),
            old(self).reverse_consistent(bis@, fixeds@),
            arenas_ok(bis@, fixeds@, bodies@.len() as int),
            bis@.len() < 0x4000_0000_0000_0000,
            fixeds@.len() < 0x4000_0000_0000_0000,
        ensures
            final(self).wf(),
            final(self).ids_in_range(bis@.len() as int, fixeds@.len() as int),
            final(self).reverse_consistent(bis@, fixeds@),
            forall|k2: int| has_key(final(self).joints@, k2) ==> has_key(old(self).joints@, k2),
            *final(activation) == (ActivationManager {
                to_activate: final(activation).to_activate,
                ..*old(activation)
            }),
            old(activation).to_activate@.is_prefix_of(final(activation).to_activate@),
            // the queue grows only by movable sleeping anchor bodies of
            // the removed joints
            forall|p: int|
                old(activation).to_activate@.len() <= p < final(activation).to_activate@.len()
                    ==> bulk_wake_ok(
                    #[trigger] final(activation).to_activate@[p],
                    (if b < old(self).body2joints@.len() {
                        old(self).body2joints@[b as int]@
                    } else {
                        Seq::empty()
                    }),
                    bis@,
                    fixeds@,
                    bodies@,
                ),
            b < old(self).body2joints@.len() ==> {
                &&& b < final(self).body2joints@.len()
                &&& final(self).body2joints@[b as int]@.len() == 0
                &&& forall|j: int|
                    0 <= j < old(self).body2joints@[b as int]@.len() ==> !has_key(
                        final(self).joints@,
                        joint_key_of(#[trigger] old(self).body2joints@[b as int]@[j]),
                    )
            },
            b >= old(self).body2joints@.len() ==> *final(self) == *old(self) && *final(activation) == *old(activation),
    {
        if b >= self.body2joints.len() {
            return ;
        }
        let snapshot = copy_constraints(&self.body2joints[b]);
        proof {
            assert forall|j: int| 0 <= j < snapshot@.len() implies anchors_of(
                #[trigger] snapshot@[j],
                bis@,
                fixeds@,
                b as int,
            ) by {
                assert(old(self).body2joints@[b as int]@[j] == snapshot@[j]);
                assert(has_key(
                    old(self).joints@,
                    joint_key_of(old(self).body2joints@[b as int]@[j]),
                ) && anchors_of(old(self).body2joints@[b as int]@[j], bis@, fixeds@, b as int));
            }
        }
        let mut i: usize = 0;
        while i < snapshot.len()
            invariant
                forall|j: int| 0 <= j < snapshot@.len() ==> anchors_of(
                    #[trigger] snapshot@[j],
                    bis@,
                    fixeds@,
                    b as int,
                ),
                self.wf(),
                self.ids_in_range(bis@.len() as int, fixeds@.len() as int),
                self.reverse_consistent(bis@, fixeds@),
                arenas_ok(bis@, fixeds@, bodies@.len() as int),
                bis@.len() < 0x4000_0000_0000_0000,
                fixeds@.len() < 0x4000_0000_0000_0000,
                i <= snapshot@.len(),
                b < self.body2joints@.len(),
                self.body2joints@.len() == old(self).body2joints@.len(),
                snapshot@ == old(self).body2joints@[b as int]@,
                forall|j: int|
                    0 <= j < i ==> !has_key(
                        self.joints@,
                        joint_key_of(#[trigger] snapshot@[j]),
                    ),
                forall|k2: int| has_key(self.joints@, k2) ==> has_key(old(self).joints@, k2),
                forall|j: int|
                    0 <= j < self.body2joints@[b as int]@.len() ==> snapshot@.contains(
                        #[trigger] self.body2joints@[b as int]@[j],
                    ),
                *activation == (ActivationManager {
                    to_activate: activation.to_activate,
                    ..*old(activation)
                }),
                old(activation).to_activate@.is_prefix_of(activation.to_activate@),
                forall|p: int|
                    old(activation).to_activate@.len() <= p < activation.to_activate@.len()
                        ==> bulk_wake_ok(
                        #[trigger] activation.to_activate@[p],
                        snapshot@,
                        bis@,
                        fixeds@,
                        bodies@,
                    ),
            decreases snapshot@.len() - i,
        {
            let c = snapshot[i];
            proof {
                assert(anchors_of(snapshot@[i as int], bis@, fixeds@, b as int));
            }
            let k: u64 = match c {
                Constraint::BallInSocket(id) => (id as u64) * 2,
                Constraint::Fixed(id) => (id as u64) * 2 + 1,
                Constraint::RBRB(_, _, _) => 0,
            };
            let ghost prev = *self;
            let ghost act_prev = *activation;
            self.remove_joint(k, bis, fixeds, bodies, activation);
            proof {
                assert(k as int == joint_key_of(c));
                // the wake-ups of this step are anchors of the removed
                // joint, which is this snapshot entry
                assert forall|p: int|
                    act_prev.to_activate@.len() <= p
                        < activation.to_activate@.len() implies bulk_wake_ok(
                    #[trigger] activation.to_activate@[p],
                    snapshot@,
                    bis@,
                    fixeds@,
                    bodies@,
                ) by {
                    assert(has_key(prev.joints@, k as int));
                    let c2 = val_of(prev.joints@, k as int);
                    let w = idx_of(prev.joints@, k as int);
                    assert(0 <= w < prev.joints@.len() && prev.joints@[w].0 as int == k as int);
                    assert(joint_key_of(c2) == k as int);
                    assert(c2 == snapshot@[i as int]);
                    let q0 = act_prev.to_activate@;
                    let a1 = joint_anchor1(c2, bis@, fixeds@);
                    let a2 = joint_anchor2(c2, bis@, fixeds@);
                    let q1 = wake_after(q0, a1, bodies@);
                    assert(activation.to_activate@ == wake_after(q1, a2, bodies@));
                    if p < q1.len() {
                        assert(q1 == q0.push(activation.to_activate@[p]));
                    }
                }
                assert forall|p: int|
                    old(activation).to_activate@.len() <= p
                        < activation.to_activate@.len() implies bulk_wake_ok(
                    #[trigger] activation.to_activate@[p],
                    snapshot@,
                    bis@,
                    fixeds@,
                    bodies@,
                ) by {
                    if p < act_prev.to_activate@.len() {
                        assert(act_prev.to_activate@[p] == activation.to_activate@[p]);
                    }
                }
                // the processed key is gone now, and earlier ones stay gone
                assert(!has_key(self.joints@, k as int)) by {
                    if has_key(prev.joints@, k as int) {
                    } else {
                        if has_key(self.joints@, k as int) {
                            assert(has_key(prev.joints@, k as int));
                        }
                    }
                }
                // the list of b still only holds snapshot entries
                assert forall|j: int|
                    0 <= j < self.body2joints@[b as int]@.len() implies snapshot@.contains(
                    #[trigger] self.body2joints@[b as int]@[j],
                ) by {
                    if has_key(prev.joints@, k as int) {
                        let c2 = val_of(prev.joints@, k as int);
                        assert(joint_key_of(c2) == k as int);
                        if self.body2joints@[b as int]@ != prev.body2joints@[b as int]@ {
                            assert(filtered_of(
                                self.body2joints@[b as int]@,
                                prev.body2joints@[b as int]@,
                                k as int,
                            ));
                            assert(prev.body2joints@[b as int]@.contains(
                                self.body2joints@[b as int]@[j],
                            ));
                            let w = choose|w: int|
                                0 <= w < prev.body2joints@[b as int]@.len()
                                    && prev.body2joints@[b as int]@[w]
                                    == self.body2joints@[b as int]@[j];
                            assert(snapshot@.contains(prev.body2joints@[b as int]@[w]));
                        }
                    }
                }
                lemma_prefix_trans(
                    old(activation).to_activate@,
                    act_prev.to_activate@,
                    activation.to_activate@,
                );
            }
            i += 1;
        }
        proof {
            // nothing is left in the reverse list of b
            if self.body2joints@[b as int]@.len() > 0 {
                let e = self.body2joints@[b as int]@[0];
                assert(snapshot@.contains(e));
                let w = choose|w: int| 0 <= w < snapshot@.len() && snapshot@[w] == e;
                assert(!has_key(self.joints@, joint_key_of(snapshot@[w])));
                assert(has_key(self.joints@, joint_key_of(e)));
                assert(false);
            }
        }
    }

    /// Activates the objects that interact with an edited joint, and marks
    /// every stale joint as reconciled.
    pub fn update(
        &self,
        bis: &mut Vec<BallInSocket>,
        fixeds: &mut Vec<Fixed>,
        bodies: &Vec<RigidBody>,
        activation: &mut ActivationManager,
    )
        requires
            self.wf(),
            self.ids_in_range(old(bis)@.len() as int, old(fixeds)@.len() as int),
            arenas_ok(old(bis)@, old(fixeds)@, bodies@.len() as int),
        ensures
            final(bis)@.len() == old(bis)@.len(),
            final(fixeds)@.len() == old(fixeds)@.len(),
            forall|id: int|
                0 <= id < old(bis)@.len() ==> #[trigger] final(bis)@[id] == (if has_key(
                    self.joints@,
                    2 * id,
                ) && !old(bis)@[id].up_to_date {
                    BallInSocket { up_to_date: true, ..old(bis)@[id] }
                } else {
                    old(bis)@[id]
                }),
            forall|id: int|
                0 <= id < old(fixeds)@.len() ==> #[trigger] final(fixeds)@[id] == (if has_key(
                    self.joints@,
                    2 * id + 1,
                ) && !old(fixeds)@[id].up_to_date {
                    Fixed { up_to_date: true, ..old(fixeds)@[id] }
                } else {
                    old(fixeds)@[id]
                }),
            *final(activation) == (ActivationManager {
                to_activate: final(activation).to_activate,
                ..*old(activation)
            }),
            old(activation).to_activate@.is_prefix_of(final(activation).to_activate@),
            spec_all_up_to_date(self.joints@, old(bis)@, old(fixeds)@) ==> final(bis)@ == old(
                bis,
            )@ && final(fixeds)@ == old(fixeds)@ && *final(activation) == *old(activation),
            forall|i: int|
                0 <= i < self.joints@.len() ==> wakes_for(
                    (#[trigger] self.joints@[i]).1,
                    old(bis)@,
                    old(fixeds)@,
                    bodies@,
                    final(activation).to_activate@,
                ),
    {
        let ghost s = self.joints@;
        let nbis = bis.len();
        let nfix = fixeds.len();
        let n = self.joints.len();
        let mut i: usize = 0;
        while i < n
            invariant
                self.wf(),
                self.ids_in_range(old(bis)@.len() as int, old(fixeds)@.len() as int),
                arenas_ok(old(bis)@, old(fixeds)@, bodies@.len() as int),
                s == self.joints@,
                n == self.joints@.len(),
                i <= n,
                bis@.len() == old(bis)@.len(),
                fixeds@.len() == old(fixeds)@.len(),
                old(bis)@.len() == nbis as int,
                old(fixeds)@.len() == nfix as int,
                forall|id: int|
                    0 <= id < old(bis)@.len() ==> #[trigger] bis@[id] == (if seen_bis(
                        s,
                        i as int,
                        id,
                    ) && !old(bis)@[id].up_to_date {
                        BallInSocket { up_to_date: true, ..old(bis)@[id] }
                    } else {
                        old(bis)@[id]
                    }),
                forall|id: int|
                    0 <= id < old(fixeds)@.len() ==> #[trigger] fixeds@[id] == (if seen_fixed(
                        s,
                        i as int,
                        id,
                    ) && !old(fixeds)@[id].up_to_date {
                        Fixed { up_to_date: true, ..old(fixeds)@[id] }
                    } else {
                        old(fixeds)@[id]
                    }),
                *activation == (ActivationManager {
                    to_activate: activation.to_activate,
                    ..*old(activation)
                }),
                old(activation).to_activate@.is_prefix_of(activation.to_activate@),
                activation.to_activate@ == spec_update_queue(
                    s,
                    i as int,
                    old(activation).to_activate@,
                    old(bis)@,
                    old(fixeds)@,
                    bodies@,
                ),
                (forall|j: int| 0 <= j < i ==> !stale((#[trigger] s[j]).1, old(bis)@, old(fixeds)@))
                    ==> bis@ == old(bis)@ && fixeds@ == old(fixeds)@ && *activation == *old(
                    activation,
                ),
                forall|j: int|
                    0 <= j < i ==> wakes_for(
                        (#[trigger] s[j]).1,
                        old(bis)@,
                        old(fixeds)@,
                        bodies@,
                        activation.to_activate@,
                    ),
            decreases n - i,
        {
            let ghost act_prev = *activation;
            let entry = self.joints[i].1;
            match entry {
                Constraint::BallInSocket(id) => {
                    proof {
                        if seen_bis(s, i as int, id as int) {
                            let j = choose|j: int|
                                0 <= j < i && (#[trigger] s[j]).1 == Constraint::BallInSocket(id);
                            assert(s[j].0 as int == joint_key_of(s[j].1));
                            assert(s[j].0 != s[i as int].0);
                            assert(false);
                        }
                        assert(bis@[id as int] == old(bis)@[id as int]);
                    }
                    if !bis[id].up_to_date() {
                        let mut jx = bis[id];
                        jx.update();
                        bis.set(id, jx);
                        let a1 = jx.anchor1.body;
                        let a2 = jx.anchor2.body;
                        self.wake_anchor(a1, bodies, activation);
                        self.wake_anchor(a2, bodies, activation);
                        proof {
                            let q0 = act_prev.to_activate@;
                            let q1 = wake_after(q0, a1, bodies@);
                            let q2 = wake_after(q1, a2, bodies@);
                            assert(activation.to_activate@ == q2);
                            lemma_wake_prefix(q0, a1, bodies@);
                            lemma_wake_prefix(q1, a2, bodies@);
                            lemma_prefix_trans(q0, q1, q2);
                            assert(a1 == joint_anchor1(s[i as int].1, old(bis)@, old(fixeds)@));
                            assert(a2 == joint_anchor2(s[i as int].1, old(bis)@, old(fixeds)@));
                            match a1 {
                                Some(h) => {
                                    if bodies@[h as int].movable && !(bodies@[h as int].state
                                        is Active) {
                                        assert(q1[q0.len() as int] == h);
                                        assert(q1.contains(h));
                                        lemma_prefix_contains(q1, q2, h);
                                    }
                                },
                                None => {},
                            }
                            match a2 {
                                Some(h) => {
                                    if bodies@[h as int].movable && !(bodies@[h as int].state
                                        is Active) {
                                        assert(q2[q1.len() as int] == h);
                                        assert(q2.contains(h));
                                    }
                                },
                                None => {},
                            }
                            assert(wakes_for(
                                s[i as int].1,
                                old(bis)@,
                                old(fixeds)@,
                                bodies@,
                                activation.to_activate@,
                            ));
                        }
                    } else {
                        proof {
                            assert(!stale(s[i as int].1, old(bis)@, old(fixeds)@));
                            assert(act_prev.to_activate@ =~= activation.to_activate@.subrange(
                                0,
                                act_prev.to_activate@.len() as int,
                            ));
                        }
                    }
                },
                Constraint::Fixed(id) => {
                    proof {
                        if seen_fixed(s, i as int, id as int) {
                            let j = choose|j: int|
                                0 <= j < i && (#[trigger] s[j]).1 == Constraint::Fixed(id);
                            assert(s[j].0 as int == joint_key_of(s[j].1));
                            assert(s[j].0 != s[i as int].0);
                            assert(false);
                        }
                        assert(fixeds@[id as int] == old(fixeds)@[id as int]);
                    }
                    if !fixeds[id].up_to_date() {
                        let mut jx = fixeds[id];
                        jx.update();
                        fixeds.set(id, jx);
                        let a1 = jx.anchor1.body;
                        let a2 = jx.anchor2.body;
                        self.wake_anchor(a1, bodies, activation);
                        self.wake_anchor(a2, bodies, activation);
                        proof {
                            let q0 = act_prev.to_activate@;
                            let q1 = wake_after(q0, a1, bodies@);
                            let q2 = wake_after(q1, a2, bodies@);
                            assert(activation.to_activate@ == q2);
                            lemma_wake_prefix(q0, a1, bodies@);
                            lemma_wake_prefix(q1, a2, bodies@);
                            lemma_prefix_trans(q0, q1, q2);
                            assert(a1 == joint_anchor1(s[i as int].1, old(bis)@, old(fixeds)@));
                            assert(a2 == joint_anchor2(s[i as int].1, old(bis)@, old(fixeds)@));
                            match a1 {
                                Some(h) => {
                                    if bodies@[h as int].movable && !(bodies@[h as int].state
                                        is Active) {
                                        assert(q1[q0.len() as int] == h);
                                        assert(q1.contains(h));
                                        lemma_prefix_contains(q1, q2, h);
                                    }
                                },
                                None => {},
                            }
                            match a2 {
                                Some(h) => {
                                    if bodies@[h as int].movable && !(bodies@[h as int].state
                                        is Active) {
                                        assert(q2[q1.len() as int] == h);
                                        assert(q2.contains(h));
                                    }
                                },
                                None => {},
                            }
                            assert(wakes_for(
                                s[i as int].1,
                                old(bis)@,
                                old(fixeds)@,
                                bodies@,
                                activation.to_activate@,
                            ));
                        }
                    } else {
                        proof {
                            assert(!stale(s[i as int].1, old(bis)@, old(fixeds)@));
                            assert(act_prev.to_activate@ =~= activation.to_activate@.subrange(
                                0,
                                act_prev.to_activate@.len() as int,
                            ));
                        }
                    }
                },
                Constraint::RBRB(_, _, _) => {
                    proof {
                        assert(false);
                    }
                },
            }
            proof {
                assert(act_prev.to_activate@.is_prefix_of(activation.to_activate@));
                lemma_prefix_trans(
                    old(activation).to_activate@,
                    act_prev.to_activate@,
                    activation.to_activate@,
                );
                assert forall|id2: int| 0 <= id2 < old(bis)@.len() implies #[trigger] bis@[id2]
                    == (if seen_bis(s, i + 1, id2) && !old(bis)@[id2].up_to_date {
                    BallInSocket { up_to_date: true, ..old(bis)@[id2] }
                } else {
                    old(bis)@[id2]
                }) by {
                    lemma_seen_bis_step(s, i as int, id2);
                    assert((id2 as usize) as int == id2);
                }
                assert forall|id2: int|
                    0 <= id2 < old(fixeds)@.len() implies #[trigger] fixeds@[id2] == (if seen_fixed(
                    s,
                    i + 1,
                    id2,
                ) && !old(fixeds)@[id2].up_to_date {
                    Fixed { up_to_date: true, ..old(fixeds)@[id2] }
                } else {
                    old(fixeds)@[id2]
                }) by {
                    lemma_seen_fixed_step(s, i as int, id2);
                    assert((id2 as usize) as int == id2);
                }
                assert forall|j: int|
                    0 <= j < i + 1 implies wakes_for(
                    (#[trigger] s[j]).1,
                    old(bis)@,
                    old(fixeds)@,
                    bodies@,
                    activation.to_activate@,
                ) by {
                    if j < i {
                        if stale(s[j].1, old(bis)@, old(fixeds)@) {
                            let b1 = joint_anchor1(s[j].1, old(bis)@, old(fixeds)@);
                            let b2 = joint_anchor2(s[j].1, old(bis)@, old(fixeds)@);
                            match b1 {
                                Some(h) => {
                                    if bodies@[h as int].movable && !(bodies@[h as int].state
                                        is Active) {
                                        lemma_prefix_contains(
                                            act_prev.to_activate@,
                                            activation.to_activate@,
                                            h,
                                        );
                                    }
                                },
                                None => {},
                            }
                            match b2 {
                                Some(h) => {
                                    if bodies@[h as int].movable && !(bodies@[h as int].state
                                        is Active) {
                                        lemma_prefix_contains(
                                            act_prev.to_activate@,
                                            activation.to_activate@,
                                            h,
                                        );
                                    }
                                },
                                None => {},
                            }
                        }
                    }
                }
            }
            i += 1;
        }
        proof {
            assert forall|id: int| 0 <= id < old(bis)@.len() implies seen_bis(s, n as int, id)
                == has_key(s, 2 * id) by {
                assert((id as usize) as int == id);
                if seen_bis(s, n as int, id) {
                    let j = choose|j: int|
                        0 <= j < n && (#[trigger] s[j]).1 == Constraint::BallInSocket(id as usize);
                    assert(s[j].0 as int == joint_key_of(s[j].1));
                    assert(has_key(s, 2 * id));
                }
                if has_key(s, 2 * id) {
                    let w = choose|w: int| 0 <= w < s.len() && (#[trigger] s[w]).0 as int == 2 * id;
                    assert(joint_key_of(s[w].1) == 2 * id);
                    assert(s[w].1 == Constraint::BallInSocket(id as usize));
                    assert(seen_bis(s, n as int, id));
                }
            }
            assert forall|id: int| 0 <= id < old(fixeds)@.len() implies seen_fixed(s, n as int, id)
                == has_key(s, 2 * id + 1) by {
                assert((id as usize) as int == id);
                if seen_fixed(s, n as int, id) {
                    let j = choose|j: int|
                        0 <= j < n && (#[trigger] s[j]).1 == Constraint::Fixed(id as usize);
                    assert(s[j].0 as int == joint_key_of(s[j].1));
                    assert(has_key(s, 2 * id + 1));
                }
                if has_key(s, 2 * id + 1) {
                    let w = choose|w: int|
                        0 <= w < s.len() && (#[trigger] s[w]).0 as int == 2 * id + 1;
                    assert(joint_key_of(s[w].1) == 2 * id + 1);
                    assert(s[w].1 == Constraint::Fixed(id as usize));
                    assert(seen_fixed(s, n as int, id));
                }
            }
            if spec_all_up_to_date(s, old(bis)@, old(fixeds)@) {
                assert(bis@ == old(bis)@ && fixeds@ == old(fixeds)@ && *activation == *old(
                    activation,
                ));
            }
        }
    }

    /// Collects all the constraints caused by joints.
    pub fn interferences(&self, constraint: &mut Vec<Constraint>)
        ensures
            final(constraint)@.len() == old(constraint)@.len() + self.joints@.len(),
            forall|j: int|
                0 <= j < old(constraint)@.len() ==> #[trigger] final(constraint)@[j] == old(
                    constraint,
                )@[j],
            forall|j: int|
                0 <= j < self.joints@.len() ==> #[trigger] final(constraint)@[old(
                    constraint,
                )@.len() + j] == self.joints@[j].1,
    {
        let mut i: usize = 0;
        while i < self.joints.len()
            invariant
                i <= self.joints@.len(),
                constraint@.len() == old(constraint)@.len() + i,
                forall|j: int|
                    0 <= j < old(constraint)@.len() ==> #[trigger] constraint@[j] == old(
                        constraint,
                    )@[j],
                forall|j: int|
                    0 <= j < i ==> #[trigger] constraint@[old(constraint)@.len() + j]
                        == self.joints@[j].1,
            decreases self.joints@.len() - i,
        {
            constraint.push(self.joints[i].1);
            i += 1;
        }
    }
}

}
