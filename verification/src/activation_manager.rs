//! Island-based activation and deactivation of bodies.
//!
//! The manager keeps a running kinetic-energy average per body, groups
//! bodies into islands with a union-find forest over contacts and joints,
//! and puts a whole island to sleep only when every member may sleep.

use vstd::prelude::*;
use crate::fx::{Fx, FX_ONE, FX_TWO, FX_FOUR, fadd, fsub, fmul, fmin, sfadd, sfsub, sfmul, sfmin,
    lemma_sfmul_mono, lemma_sfmul_two_ge};
use crate::alg::{V2, v2_sqnorm, sv2_sqnorm};
use crate::body::{RigidBody, ActivationState};
use crate::union_find::{UnionFindSet, wf_forest, root_of, lemma_root_of, find, union};
use crate::constraint::Constraint;
use crate::joint_manager::JointManager;
use crate::ball_in_socket::BallInSocket;
use crate::fixed::Fixed;

verus! {

/// The queue `q` after asking to wake the body behind `b`: the handle is
/// appended when it names a movable body that is not already awake.
pub open spec fn wake_after(q: Seq<usize>, b: Option<usize>, bodies: Seq<RigidBody>) -> Seq<
    usize,
> {
    match b {
        Some(h) => if bodies[h as int].movable && !(bodies[h as int].state is Active) {
            q.push(h)
        } else {
            q
        },
        None => q,
    }
}

/// Structure that monitors island-based activation/deactivation of objects.
///
/// It is responsible for making objects sleep or wake up.
pub struct ActivationManager {
    /// The ratio of new kinetic energy mixed into the running average.
    pub mix_factor: Fx,
    /// Union-find forest over dense body indices, rebuilt each tick.
    pub ufind: Vec<UnionFindSet>,
    /// Per-root vote: whether the whole island may sleep.
    pub can_deactivate: Vec<bool>,
    /// Bodies scheduled for explicit wake-up at the next update.
    pub to_activate: Vec<usize>,
}

impl ActivationManager {
    /// Creates a new `ActivationManager`.
    ///
    /// `mix_factor` is the ratio of energy mixed in between two frames and
    /// must lie between zero and one.
    pub fn new(mix_factor: Fx) -> (r: ActivationManager)
        requires
            0 <= mix_factor <= FX_ONE,
        ensures
            r.mix_factor == mix_factor,
            r.ufind@.len() == 0,
            r.can_deactivate@.len() == 0,
            r.to_activate@.len() == 0,
    {
        ActivationManager {
            mix_factor,
            ufind: Vec::new(),
            can_deactivate: Vec::new(),
            to_activate: Vec::new(),
        }
    }

    /// Notify the manager that it has to activate an object at the next
    /// update. A handle of an immovable or already awake body is dropped.
    pub fn will_activate(&mut self, bodies: &Vec<RigidBody>, b: usize)
        requires
            b < bodies.len(),
        ensures
            *final(self) == (ActivationManager {
                to_activate: final(self).to_activate,
                ..*old(self)
            }),
            final(self).to_activate@ == wake_after(old(self).to_activate@, Some(b), bodies@),
    {
        if bodies[b].can_move() && !bodies[b].is_active() {
            self.to_activate.push(b);
        }
    }
}

/// The running energy average of an awake body refreshed from its
/// velocities and clamped to four times its threshold; a body without a
/// threshold is left as it is.
pub open spec fn spec_refreshed_energy(b: RigidBody, mix: Fx) -> int {
    sfadd(
        sfmul(sfsub(FX_ONE as int, mix as int), b.state.spec_energy()),
        sfmul(
            mix as int,
            sfadd(sv2_sqnorm(b.lin_vel@), sfmul(b.ang_vel as int, b.ang_vel as int)),
        ),
    )
}

/// An awake body after the energy pass.
pub open spec fn spec_energized(b: RigidBody, mix: Fx) -> RigidBody {
    match b.threshold {
        Some(t) => RigidBody {
            state: ActivationState::Active(
                sfmin(spec_refreshed_energy(b, mix), sfmul(FX_FOUR as int, t as int)) as i64,
            ),
            ..b
        },
        None => b,
    }
}

/// A body after the first pass of an update: energy refreshed when awake,
/// and the solver index set to the body's position in the arena.
pub open spec fn spec_energy_phase(b: RigidBody, mix: Fx, i: int) -> RigidBody {
    if b.state is Active {
        RigidBody { index: i as i64, ..spec_energized(b, mix) }
    } else {
        RigidBody { index: i as i64, ..b }
    }
}


/// Whether a body's refreshed state lets it sleep: a threshold is
/// present and the running energy average is under it.
pub open spec fn spec_can_sleep(b: RigidBody) -> bool {
    b.threshold matches Some(t) && b.state.spec_energy() < t as int
}

/// A body after the energy pass and the explicit wake pass: a scheduled
/// body with a threshold is raised to twice it.
pub open spec fn spec_mid_body(b0: RigidBody, mix: Fx, i: int, pending: Seq<usize>) -> RigidBody {
    let p = spec_energy_phase(b0, mix, i);
    match b0.threshold {
        Some(t) => if pending.contains(i as usize) {
            RigidBody {
                state: ActivationState::Active(sfmul(FX_TWO as int, t as int) as i64),
                ..p
            }
        } else {
            p
        },
        None => p,
    }
}

/// The island edges that the first `k` contact pairs contribute, in
/// order: one edge per pair whose two bodies are both movable.
pub open spec fn spec_contact_edges(
    contacts: Seq<(usize, usize)>,
    bodies: Seq<RigidBody>,
    k: int,
) -> Seq<(int, int)>
    decreases k,
{
    if k <= 0 {
        Seq::empty()
    } else {
        let p = spec_contact_edges(contacts, bodies, k - 1);
        let e = contacts[k - 1];
        if bodies[e.0 as int].movable && bodies[e.1 as int].movable {
            p.push((e.0 as int, e.1 as int))
        } else {
            p
        }
    }
}

/// The island edges that the first `k` joint-table entries contribute, in
/// order: one edge per joint whose two anchor bodies are both present and
/// movable. A world-anchored joint contributes no edge; a contact entry
/// never stands in the table.
pub open spec fn spec_joint_edges(
    jt: Seq<(u64, Constraint)>,
    bis: Seq<BallInSocket>,
    fixeds: Seq<Fixed>,
    bodies: Seq<RigidBody>,
    k: int,
) -> Seq<(int, int)>
    decreases k,
{
    if k <= 0 {
        Seq::empty()
    } else {
        let p = spec_joint_edges(jt, bis, fixeds, bodies, k - 1);
        match jt[k - 1].1 {
            Constraint::BallInSocket(id) => match (
                bis[id as int].anchor1.body,
                bis[id as int].anchor2.body,
            ) {
                (Some(b1), Some(b2)) => if bodies[b1 as int].movable && bodies[
                    b2 as int
                ].movable {
                    p.push((b1 as int, b2 as int))
                } else {
                    p
                },
                _ => p,
            },
            Constraint::Fixed(id) => match (
                fixeds[id as int].anchor1.body,
                fixeds[id as int].anchor2.body,
            ) {
                (Some(b1), Some(b2)) => if bodies[b1 as int].movable && bodies[
                    b2 as int
                ].movable {
                    p.push((b1 as int, b2 as int))
                } else {
                    p
                },
                _ => p,
            },
            Constraint::RBRB(_, _, _) => p,
        }
    }
}

/// All island edges of one update: the contact edges, then the joint
/// edges.
pub open spec fn spec_island_edges(
    contacts: Seq<(usize, usize)>,
    jt: Seq<(u64, Constraint)>,
    bis: Seq<BallInSocket>,
    fixeds: Seq<Fixed>,
    bodies: Seq<RigidBody>,
) -> Seq<(int, int)> {
    spec_contact_edges(contacts, bodies, contacts.len() as int) + spec_joint_edges(
        jt,
        bis,
        fixeds,
        bodies,
        jt.len() as int,
    )
}

/// The representative of `i` after the first `k` island edges are merged
/// in order, starting from every body alone in its own island: each merge
/// re-roots the two classes at the smaller of their representatives.
pub open spec fn root_after(edges: Seq<(int, int)>, k: int, i: int) -> int
    decreases k,
{
    if k <= 0 {
        i
    } else {
        let ra = root_after(edges, k - 1, edges[k - 1].0);
        let rb = root_after(edges, k - 1, edges[k - 1].1);
        let r0 = root_after(edges, k - 1, i);
        let m = if ra <= rb {
            ra
        } else {
            rb
        };
        if r0 == ra || r0 == rb {
            m
        } else {
            r0
        }
    }
}

/// `root_after` reads only the first `k` edges.
proof fn lemma_root_after_prefix(e1: Seq<(int, int)>, e2: Seq<(int, int)>, k: int, i: int)
    requires
        forall|j: int| 0 <= j < k ==> e1[j] == e2[j],
    ensures
        root_after(e1, k, i) == root_after(e2, k, i),
    decreases k,
{
    if k > 0 {
        lemma_root_after_prefix(e1, e2, k - 1, e1[k - 1].0);
        lemma_root_after_prefix(e1, e2, k - 1, e1[k - 1].1);
        lemma_root_after_prefix(e1, e2, k - 1, i);
    }
}

/// Appending to a sequence adds exactly one member.
proof fn lemma_contains_after_push(s: Seq<usize>, x: usize, y: usize)
    ensures
        s.push(x).contains(y) == (s.contains(y) || x == y),
{
    if s.contains(y) {
        let w = choose|w: int| 0 <= w < s.len() && s[w] == y;
        assert(s.push(x)[w] == y);
    }
    if x == y {
        assert(s.push(x)[s.len() as int] == y);
    }
    if s.push(x).contains(y) {
        let w = choose|w: int| 0 <= w < s.push(x).len() && s.push(x)[w] == y;
        if w < s.len() {
            assert(s[w] == y);
        }
    }
}

/// Assembles the update's guarantees from the three pass descriptions: the
/// energy pass, the explicit wake pass, and the island commit.
#[verifier::spinoff_prover]
proof fn lemma_update_post(
    bodies0: Seq<RigidBody>,
    mid0: Seq<RigidBody>,
    mid: Seq<RigidBody>,
    fin: Seq<RigidBody>,
    pending: Seq<usize>,
    mix: Fx,
    uf: Seq<UnionFindSet>,
    cd: Seq<bool>,
)
    requires
        mid0.len() == bodies0.len(),
        mid.len() == bodies0.len(),
        fin.len() == bodies0.len(),
        uf.len() == bodies0.len(),
        cd.len() == bodies0.len(),
        wf_forest(uf),
        bodies0.len() <= i64::MAX as int,
        forall|j: int| 0 <= j < bodies0.len() ==> (#[trigger] bodies0[j]).wf(),
        forall|j: int| 0 <= j < bodies0.len() ==> !((#[trigger] bodies0[j]).state is Deleted),
        forall|j: int|
            0 <= j < bodies0.len() ==> ((#[trigger] bodies0[j]).state is Inactive
                && bodies0[j].movable ==> bodies0[j].threshold is Some),
        forall|j: int| 0 <= j < bodies0.len() ==> #[trigger] mid0[j] == spec_energy_phase(
            bodies0[j],
            mix,
            j,
        ),
        forall|j: int|
            0 <= j < bodies0.len() ==> #[trigger] mid[j] == mid0[j] || (mid0[j].threshold matches
            Some(t) && mid[j] == (RigidBody {
                state: ActivationState::Active(sfmul(FX_TWO as int, t as int) as i64),
                ..mid0[j]
            }) && pending.contains(j as usize)),
        forall|j: int|
            0 <= j < bodies0.len() ==> (cd[root_of(uf, j)] ==> ((#[trigger] mid[j]).threshold
                matches Some(t) && mid[j].state.spec_energy() < t as int)),
        forall|j: int|
            0 <= j < bodies0.len() ==> #[trigger] fin[j] == (if cd[root_of(uf, j)] {
                RigidBody {
                    state: ActivationState::Inactive,
                    lin_vel: V2 { x: 0, y: 0 },
                    ang_vel: 0,
                    ..mid[j]
                }
            } else if !(mid[j].state is Active) && mid[j].movable && mid[j].threshold is Some {
                RigidBody {
                    state: ActivationState::Active(
                        sfmul(FX_TWO as int, mid[j].threshold->Some_0 as int) as i64,
                    ),
                    ..mid[j]
                }
            } else {
                mid[j]
            }),
    ensures
        forall|i: int|
            0 <= i < bodies0.len() ==> (#[trigger] fin[i]).index == i && fin[i].wf()
                && fin[i].threshold == bodies0[i].threshold && fin[i].movable == bodies0[
                i
            ].movable,
        forall|i: int| 0 <= i < bodies0.len() ==> !((#[trigger] fin[i]).state is Deleted),
        forall|i: int|
            0 <= i < bodies0.len() ==> ((#[trigger] fin[i]).state is Inactive && fin[i].movable
                ==> fin[i].threshold is Some),
        forall|i: int|
            0 <= i < bodies0.len() ==> match (#[trigger] fin[i]).state {
                ActivationState::Active(e) => match fin[i].threshold {
                    Some(t) => e as int <= sfmul(FX_FOUR as int, t as int),
                    None => true,
                },
                _ => true,
            },
        forall|i: int|
            0 <= i < bodies0.len() ==> ((#[trigger] fin[i]).state is Inactive && fin[i].movable
                ==> (fin[i].threshold matches Some(t) && spec_energy_phase(
                bodies0[i],
                mix,
                i,
            ).state.spec_energy() < t as int)),
        forall|i: int|
            0 <= i < bodies0.len() && (#[trigger] bodies0[i]).threshold is None ==> fin[i] == (
            RigidBody { index: i as i64, ..bodies0[i] }),
        forall|i: int|
            0 <= i < bodies0.len() && cd[root_of(uf, i)] ==> (#[trigger] fin[i]).state
                is Inactive,
        forall|i: int|
            0 <= i < bodies0.len() && (#[trigger] bodies0[i]).state is Active
                && !pending.contains(i as usize) && fin[i].state is Active ==> fin[i]
                == spec_energy_phase(bodies0[i], mix, i),
{
    assert forall|i: int| 0 <= i < bodies0.len() implies {
        &&& (#[trigger] fin[i]).index == i && fin[i].wf() && fin[i].threshold
            == bodies0[i].threshold && fin[i].movable == bodies0[i].movable
        &&& !(fin[i].state is Deleted)
        &&& (fin[i].state is Inactive && fin[i].movable ==> fin[i].threshold is Some)
        &&& match fin[i].state {
            ActivationState::Active(e) => match fin[i].threshold {
                Some(t) => e as int <= sfmul(FX_FOUR as int, t as int),
                None => true,
            },
            _ => true,
        }
        &&& (fin[i].state is Inactive && fin[i].movable ==> (fin[i].threshold matches Some(t)
            && spec_energy_phase(bodies0[i], mix, i).state.spec_energy() < t as int))
        &&& (bodies0[i].threshold is None ==> fin[i] == (RigidBody {
            index: i as i64,
            ..bodies0[i]
        }))
        &&& (cd[root_of(uf, i)] ==> fin[i].state is Inactive)
        &&& (bodies0[i].state is Active && !pending.contains(i as usize) && fin[i].state
            is Active ==> fin[i] == spec_energy_phase(bodies0[i], mix, i))
    } by {
        let b0 = bodies0[i];
        let phase = spec_energy_phase(b0, mix, i);
        assert(mid0[i] == phase);
        match b0.threshold {
            Some(t) => {
                assert(t > 0);
                lemma_sfmul_mono(FX_TWO as int, FX_FOUR as int, t as int);
                lemma_sfmul_two_ge(t as int);
                if mid[i] != mid0[i] {
                    // woken by the explicit list: energy is exactly twice the
                    // threshold, which is at least the threshold
                    assert(mid[i].state.spec_energy() == sfmul(FX_TWO as int, t as int));
                    if cd[root_of(uf, i)] {
                        assert(mid[i].state.spec_energy() < t as int);
                        assert(false);
                    }
                }
            },
            None => {
                assert(mid[i] == mid0[i]);
                if cd[root_of(uf, i)] {
                    assert(false);
                }
            },
        }
    }
}

impl ActivationManager {
    /// Refresh the running energy average of an awake body.
    fn update_energy(&self, b: &mut RigidBody)
        requires
            old(b).state is Active,
        ensures
            *final(b) == spec_energized(*old(b), self.mix_factor),
    {
        match b.threshold {
            Some(t) => {
                let sq = fadd(v2_sqnorm(&b.lin_vel), fmul(b.ang_vel, b.ang_vel));
                let fresh = fadd(
                    fmul(fsub(FX_ONE, self.mix_factor), b.state.energy()),
                    fmul(self.mix_factor, sq),
                );
                let four_t = fmul(FX_FOUR, t);
                b.activate(fmin(fresh, four_t));
            },
            None => {},
        }
    }

    /// Update the activation manager, activating and deactivating objects
    /// when needed.
    ///
    /// `contacts` lists the body pairs that share at least one contact this
    /// tick; joints come from the joint manager's table. A whole island is
    /// put to sleep only when every member may sleep; an island with a
    /// lively member has its movable sleepers woken instead.
    pub fn update(
        &mut self,
        bodies: &mut Vec<RigidBody>,
        contacts: &Vec<(usize, usize)>,
        joints: &JointManager,
        bis: &Vec<crate::ball_in_socket::BallInSocket>,
        fixeds: &Vec<crate::fixed::Fixed>,
    )
        requires
            old(bodies)@.len() <= i64::MAX as int,
            forall|i: int| 0 <= i < old(bodies)@.len() ==> (#[trigger] old(bodies)@[i]).wf(),
            forall|i: int|
                0 <= i < old(bodies)@.len() ==> !((#[trigger] old(bodies)@[i]).state is Deleted),
            forall|i: int|
                0 <= i < old(bodies)@.len() ==> ((#[trigger] old(bodies)@[i]).state is Inactive
                    && old(bodies)@[i].movable ==> old(bodies)@[i].threshold is Some),
            forall|k: int|
                0 <= k < old(self).to_activate@.len() ==> (#[trigger] old(self).to_activate@[k])
                    < old(bodies)@.len(),
            forall|k: int|
                0 <= k < contacts@.len() ==> (#[trigger] contacts@[k]).0 < old(bodies)@.len()
                    && contacts@[k].1 < old(bodies)@.len(),
            joints.wf(),
            joints.ids_in_range(bis@.len() as int, fixeds@.len() as int),
            crate::joint_manager::arenas_ok(bis@, fixeds@, old(bodies)@.len() as int),
        ensures
            final(bodies)@.len() == old(bodies)@.len(),
            final(self).mix_factor == old(self).mix_factor,
            final(self).to_activate@.len() == 0,
            final(self).ufind@.len() == old(bodies)@.len(),
            wf_forest(final(self).ufind@),
            final(self).can_deactivate@.len() == old(bodies)@.len(),
            // every body keeps its identity and gets its dense index
            forall|i: int|
                0 <= i < old(bodies)@.len() ==> (#[trigger] final(bodies)@[i]).index == i
                    && final(bodies)@[i].wf() && final(bodies)@[i].threshold == old(
                    bodies,
                )@[i].threshold && final(bodies)@[i].movable == old(bodies)@[i].movable,
            // no body is ever Deleted
            forall|i: int|
                0 <= i < old(bodies)@.len() ==> !((#[trigger] final(bodies)@[i]).state
                    is Deleted),
            // a sleeping movable body always carries a threshold
            forall|i: int|
                0 <= i < old(bodies)@.len() ==> ((#[trigger] final(bodies)@[i]).state is Inactive
                    && final(bodies)@[i].movable ==> final(bodies)@[i].threshold is Some),
            // the energy clamp: no awake body exceeds four times its threshold
            forall|i: int|
                0 <= i < old(bodies)@.len() ==> match (#[trigger] final(bodies)@[i]).state {
                    ActivationState::Active(e) => match final(bodies)@[i].threshold {
                        Some(t) => e as int <= sfmul(FX_FOUR as int, t as int),
                        None => true,
                    },
                    _ => true,
                },
            // deactivation only below threshold: a body put (or left) asleep
            // voted with its refreshed energy under its threshold
            forall|i: int|
                0 <= i < old(bodies)@.len() ==> ((#[trigger] final(bodies)@[i]).state is Inactive
                    && final(bodies)@[i].movable ==> (final(bodies)@[i].threshold matches Some(t)
                    && spec_energy_phase(
                    old(bodies)@[i],
                    old(self).mix_factor,
                    i,
                ).state.spec_energy() < t as int)),
            // a body without a threshold never changes activation state
            forall|i: int|
                0 <= i < old(bodies)@.len() && (#[trigger] old(bodies)@[i]).threshold is None
                    ==> final(bodies)@[i] == (RigidBody { index: i as i64, ..old(bodies)@[i] }),
            // whole islands sleep together
            forall|i: int|
                0 <= i < old(bodies)@.len() && final(self).can_deactivate@[root_of(
                    final(self).ufind@,
                    i,
                )] ==> (#[trigger] final(bodies)@[i]).state is Inactive,
            // an untouched awake body has exactly the refreshed energy
            forall|i: int|
                0 <= i < old(bodies)@.len() && (#[trigger] old(bodies)@[i]).state is Active
                    && !old(self).to_activate@.contains(i as usize) && final(bodies)@[i].state
                    is Active ==> final(bodies)@[i] == spec_energy_phase(
                    old(bodies)@[i],
                    old(self).mix_factor,
                    i,
                ),
            // the islands are exactly the union of this tick's movable
            // contact pairs and fully-anchored joints, merged in order
            forall|i: int|
                0 <= i < old(bodies)@.len() ==> root_of(final(self).ufind@, i) == ({
                    let edges = spec_island_edges(
                        contacts@,
                        joints.joints@,
                        bis@,
                        fixeds@,
                        old(bodies)@,
                    );
                    root_after(edges, edges.len() as int, i)
                }),
            // a root's sleep vote is exactly its island's conjunction of
            // per-member threshold checks over the refreshed, wake-applied
            // state
            forall|r: int|
                0 <= r < old(bodies)@.len() && root_of(final(self).ufind@, r) == r ==> ((
                #[trigger] final(self).can_deactivate@[r]) <==> (forall|j: int|
                    0 <= j < old(bodies)@.len() && root_of(final(self).ufind@, j) == r
                        ==> spec_can_sleep(
                        spec_mid_body(
                            old(bodies)@[j],
                            old(self).mix_factor,
                            j,
                            old(self).to_activate@,
                        ),
                    ))),
            // the commit, body by body: every member of a sleepable island
            // sleeps; otherwise a sleeper that is movable with a threshold
            // (whether explicitly scheduled or in a lively island) ends
            // awake at twice its threshold; everything else keeps its
            // refreshed, wake-applied state
            forall|i: int|
                0 <= i < old(bodies)@.len() ==> #[trigger] final(bodies)@[i] == ({
                    let m = spec_mid_body(
                        old(bodies)@[i],
                        old(self).mix_factor,
                        i,
                        old(self).to_activate@,
                    );
                    if final(self).can_deactivate@[root_of(final(self).ufind@, i)] {
                        RigidBody {
                            state: ActivationState::Inactive,
                            lin_vel: (V2 { x: 0, y: 0 }),
                            ang_vel: 0,
                            ..m
                        }
                    } else if !(m.state is Active) && m.movable && m.threshold is Some {
                        RigidBody {
                            state: ActivationState::Active(
                                sfmul(FX_TWO as int, m.threshold->Some_0 as int) as i64,
                            ),
                            ..m
                        }
                    } else {
                        m
                    }
                }),
    {
        let n = bodies.len();
        let ghost bodies0 = bodies@;
        let ghost mix = self.mix_factor;
        // energy update and dense index assignment
        let mut i: usize = 0;
        while i < n
            invariant
                bodies@.len() == n,
                n == bodies0.len(),
                n <= i64::MAX as int,
                i <= n,
                self == old(self),
                mix == self.mix_factor,
                forall|j: int| 0 <= j < n ==> (#[trigger] bodies0[j]).wf(),
                forall|j: int| 0 <= j < i ==> #[trigger] bodies@[j] == spec_energy_phase(
                    bodies0[j],
                    mix,
                    j,
                ),
                forall|j: int| i <= j < n ==> #[trigger] bodies@[j] == bodies0[j],
            decreases n - i,
        {
            let mut b = bodies[i];
            if b.is_active() {
                self.update_energy(&mut b);
            }
            b.set_index(i as i64);
            bodies.set(i, b);
            i += 1;
        }
        let ghost mid0 = bodies@;
        // explicit wake list
        let ghost pending = self.to_activate@;
        let mut k: usize = 0;
        while k < self.to_activate.len()
            invariant
                bodies@.len() == n,
                n == mid0.len(),
                self == old(self),
                mix == self.mix_factor,
                pending == self.to_activate@,
                forall|p: int| 0 <= p < pending.len() ==> (#[trigger] pending[p]) < n,
                k <= pending.len(),
                forall|j: int|
                    0 <= j < n ==> (#[trigger] mid0[j]).threshold == bodies0[j].threshold,
                forall|j: int|
                    0 <= j < n ==> #[trigger] bodies@[j] == ({
                        let sub = pending.subrange(0, k as int);
                        match bodies0[j].threshold {
                            Some(t) => if sub.contains(j as usize) {
                                RigidBody {
                                    state: ActivationState::Active(
                                        sfmul(FX_TWO as int, t as int) as i64,
                                    ),
                                    ..mid0[j]
                                }
                            } else {
                                mid0[j]
                            },
                            None => mid0[j],
                        }
                    }),
            decreases pending.len() - k,
        {
            let b = self.to_activate[k];
            let ghost sub_old = pending.subrange(0, k as int);
            let ghost sub_new = pending.subrange(0, k + 1);
            proof {
                assert(sub_new =~= sub_old.push(pending[k as int]));
            }
            match bodies[b].threshold {
                Some(t) => {
                    let e = fmul(FX_TWO, t);
                    let mut bb = bodies[b];
                    bb.activate(e);
                    bodies.set(b, bb);
                },
                None => {},
            }
            proof {
                assert forall|j: int| 0 <= j < n implies #[trigger] bodies@[j] == ({
                    match bodies0[j].threshold {
                        Some(t) => if sub_new.contains(j as usize) {
                            RigidBody {
                                state: ActivationState::Active(
                                    sfmul(FX_TWO as int, t as int) as i64,
                                ),
                                ..mid0[j]
                            }
                        } else {
                            mid0[j]
                        },
                        None => mid0[j],
                    }
                }) by {
                    lemma_contains_after_push(sub_old, pending[k as int], j as usize);
                }
            }
            k += 1;
        }
        self.to_activate = Vec::new();
        let ghost mid = bodies@;
        proof {
            // each body of the intermediate state is its refreshed,
            // wake-applied description
            assert(pending.subrange(0, pending.len() as int) =~= pending);
            assert forall|j: int| 0 <= j < n implies #[trigger] mid[j] == spec_mid_body(
                bodies0[j],
                mix,
                j,
                pending,
            ) by {
                assert(mid0[j] == spec_energy_phase(bodies0[j], mix, j));
            }
        }
        // rebuild the union-find forest and the vote vector
        let mut uf: Vec<UnionFindSet> = Vec::new();
        let mut idx: usize = 0;
        while idx < n
            invariant
                idx <= n,
                uf@.len() == idx,
                forall|j: int| 0 <= j < idx ==> (#[trigger] uf@[j]).parent == j,
            decreases n - idx,
        {
            uf.push(UnionFindSet::new(idx));
            idx += 1;
        }
        self.ufind = uf;
        let mut cd: Vec<bool> = Vec::new();
        let mut idx2: usize = 0;
        while idx2 < n
            invariant
                idx2 <= n,
                cd@.len() == idx2,
                forall|j: int| 0 <= j < idx2 ==> #[trigger] cd@[j] == true,
            decreases n - idx2,
        {
            cd.push(true);
            idx2 += 1;
        }
        self.can_deactivate = cd;
        // run the union-find over contact edges and joint edges
        let ghost ce_all = spec_contact_edges(contacts@, bodies0, contacts@.len() as int);
        let mut e: usize = 0;
        while e < contacts.len()
            invariant
                bodies@ == mid,
                bodies@.len() == n,
                n == bodies0.len(),
                self.ufind@.len() == n,
                wf_forest(self.ufind@),
                forall|p: int|
                    0 <= p < contacts@.len() ==> (#[trigger] contacts@[p]).0 < n
                        && contacts@[p].1 < n,
                e <= contacts@.len(),
                self.can_deactivate@.len() == n,
                forall|j: int| 0 <= j < n ==> #[trigger] self.can_deactivate@[j] == true,
                self.to_activate@.len() == 0,
                self.mix_factor == mix,
                forall|j: int| 0 <= j < n ==> (#[trigger] mid[j]).movable == bodies0[j].movable,
                forall|i2: int|
                    0 <= i2 < n ==> root_of(self.ufind@, i2) == ({
                        let ce = spec_contact_edges(contacts@, bodies0, e as int);
                        root_after(ce, ce.len() as int, i2)
                    }),
            decreases contacts@.len() - e,
        {
            let (b1, b2) = contacts[e];
            let ghost ce_old = spec_contact_edges(contacts@, bodies0, e as int);
            let ghost ce_new = spec_contact_edges(contacts@, bodies0, e + 1);
            let ghost uf_old = self.ufind@;
            if bodies[b1].can_move() && bodies[b2].can_move() {
                union(&mut self.ufind, b1, b2);
                proof {
                    assert(ce_new == ce_old.push((b1 as int, b2 as int)));
                    assert forall|i2: int| 0 <= i2 < n implies root_of(self.ufind@, i2)
                        == root_after(ce_new, ce_new.len() as int, i2) by {
                        lemma_root_after_prefix(ce_new, ce_old, ce_old.len() as int, b1 as int);
                        lemma_root_after_prefix(ce_new, ce_old, ce_old.len() as int, b2 as int);
                        lemma_root_after_prefix(ce_new, ce_old, ce_old.len() as int, i2);
                    }
                }
            } else {
                proof {
                    assert(ce_new == ce_old);
                }
            }
            e += 1;
        }
        let jt = joints.joints();
        let mut je: usize = 0;
        while je < jt.len()
            invariant
                bodies@ == mid,
                bodies@.len() == n,
                n == bodies0.len(),
                self.ufind@.len() == n,
                wf_forest(self.ufind@),
                jt@ == joints.joints@,
                joints.ids_in_range(bis@.len() as int, fixeds@.len() as int),
                crate::joint_manager::arenas_ok(bis@, fixeds@, n as int),
                je <= jt@.len(),
                self.can_deactivate@.len() == n,
                forall|j: int| 0 <= j < n ==> #[trigger] self.can_deactivate@[j] == true,
                self.to_activate@.len() == 0,
                self.mix_factor == mix,
                ce_all == spec_contact_edges(contacts@, bodies0, contacts@.len() as int),
                forall|j: int| 0 <= j < n ==> (#[trigger] mid[j]).movable == bodies0[j].movable,
                forall|i2: int|
                    0 <= i2 < n ==> root_of(self.ufind@, i2) == ({
                        let edges = ce_all + spec_joint_edges(jt@, bis@, fixeds@, bodies0, je as int);
                        root_after(edges, edges.len() as int, i2)
                    }),
            decreases jt@.len() - je,
        {
            let entry = jt[je].1;
            let ghost s_old = ce_all + spec_joint_edges(jt@, bis@, fixeds@, bodies0, je as int);
            let ghost s_new = ce_all + spec_joint_edges(jt@, bis@, fixeds@, bodies0, je + 1);
            match entry {
                Constraint::RBRB(_, _, _) => {
                    proof {
                        assert(false);
                    }
                },
                Constraint::BallInSocket(id) => {
                    match (bis[id].anchor1.body, bis[id].anchor2.body) {
                        (Some(b1), Some(b2)) => {
                            if bodies[b1].can_move() && bodies[b2].can_move() {
                                union(&mut self.ufind, b1, b2);
                                proof {
                                    assert(s_new =~= s_old.push((b1 as int, b2 as int)));
                                    assert forall|i2: int| 0 <= i2 < n implies root_of(
                                        self.ufind@,
                                        i2,
                                    ) == root_after(s_new, s_new.len() as int, i2) by {
                                        lemma_root_after_prefix(
                                            s_new,
                                            s_old,
                                            s_old.len() as int,
                                            b1 as int,
                                        );
                                        lemma_root_after_prefix(
                                            s_new,
                                            s_old,
                                            s_old.len() as int,
                                            b2 as int,
                                        );
                                        lemma_root_after_prefix(
                                            s_new,
                                            s_old,
                                            s_old.len() as int,
                                            i2,
                                        );
                                    }
                                }
                            } else {
                                proof {
                                    assert(s_new =~= s_old);
                                    assert(root_after(s_new, s_new.len() as int, 0)
                                        == root_after(s_old, s_old.len() as int, 0));
                                }
                            }
                        },
                        _ => {
                            proof {
                                assert(s_new =~= s_old);
                            }
                        },
                    }
                },
                Constraint::Fixed(id) => {
                    match (fixeds[id].anchor1.body, fixeds[id].anchor2.body) {
                        (Some(b1), Some(b2)) => {
                            if bodies[b1].can_move() && bodies[b2].can_move() {
                                union(&mut self.ufind, b1, b2);
                                proof {
                                    assert(s_new =~= s_old.push((b1 as int, b2 as int)));
                                    assert forall|i2: int| 0 <= i2 < n implies root_of(
                                        self.ufind@,
                                        i2,
                                    ) == root_after(s_new, s_new.len() as int, i2) by {
                                        lemma_root_after_prefix(
                                            s_new,
                                            s_old,
                                            s_old.len() as int,
                                            b1 as int,
                                        );
                                        lemma_root_after_prefix(
                                            s_new,
                                            s_old,
                                            s_old.len() as int,
                                            b2 as int,
                                        );
                                        lemma_root_after_prefix(
                                            s_new,
                                            s_old,
                                            s_old.len() as int,
                                            i2,
                                        );
                                    }
                                }
                            } else {
                                proof {
                                    assert(s_new =~= s_old);
                                }
                            }
                        },
                        _ => {
                            proof {
                                assert(s_new =~= s_old);
                            }
                        },
                    }
                },
            }
            je += 1;
        }
        let ghost uf_final = self.ufind@;
        proof {
            assert(spec_joint_edges(jt@, bis@, fixeds@, bodies0, jt@.len() as int)
                == spec_joint_edges(joints.joints@, bis@, fixeds@, bodies0, joints.joints@.len() as int));
        }
        // find deactivable islands: a root keeps its vote only while every
        // member stays under its threshold
        let mut v: usize = 0;
        while v < n
            invariant
                bodies@ == mid,
                bodies@.len() == n,
                self.ufind@ == uf_final,
                self.ufind@.len() == n,
                wf_forest(self.ufind@),
                v <= n,
                self.can_deactivate@.len() == n,
                self.to_activate@.len() == 0,
                self.mix_factor == mix,
                forall|r: int|
                    0 <= r < n && root_of(uf_final, r) == r ==> ((
                    #[trigger] self.can_deactivate@[r]) <==> (forall|j: int|
                        0 <= j < v && root_of(uf_final, j) == r ==> spec_can_sleep(mid[j]))),
            decreases n - v,
        {
            let root = find(&self.ufind, v);
            let ghost cd_prev = self.can_deactivate@;
            let vote: bool = match bodies[v].threshold {
                Some(t) => self.can_deactivate[root] && bodies[v].state.energy() < t,
                None => false,
            };
            self.can_deactivate.set(root, vote);
            proof {
                lemma_root_of(uf_final, v as int);
                assert(vote == (cd_prev[root as int] && spec_can_sleep(mid[v as int])));
                assert forall|r: int|
                    0 <= r < n && root_of(uf_final, r) == r implies ((
                #[trigger] self.can_deactivate@[r]) <==> (forall|j: int|
                    0 <= j < v + 1 && root_of(uf_final, j) == r ==> spec_can_sleep(mid[j]))) by {
                    if r == root as int {
                        if self.can_deactivate@[r] {
                            assert forall|j: int|
                                0 <= j < v + 1 && root_of(uf_final, j) == r implies spec_can_sleep(
                                mid[j],
                            ) by {
                                if j < v {
                                    assert(cd_prev[r]);
                                }
                            }
                        } else {
                            if forall|j: int|
                                0 <= j < v + 1 && root_of(uf_final, j) == r ==> spec_can_sleep(
                                    mid[j],
                                ) {
                                assert(spec_can_sleep(mid[v as int]));
                                assert(forall|j: int|
                                    0 <= j < v && root_of(uf_final, j) == r ==> spec_can_sleep(
                                        mid[j],
                                    ));
                                assert(cd_prev[r]);
                                assert(false);
                            }
                        }
                    } else {
                        assert(self.can_deactivate@[r] == cd_prev[r]);
                        assert forall|j: int|
                            0 <= j < v + 1 && root_of(uf_final, j) == r implies j < v by {}
                    }
                }
            }
            v += 1;
        }
        let ghost cd_final = self.can_deactivate@;
        proof {
            // a standing vote means every member of the island may sleep
            assert forall|j: int|
                0 <= j < n && cd_final[root_of(uf_final, j)] implies spec_can_sleep(
                mid[j],
            ) by {
                lemma_root_of(uf_final, j);
            }
        }
        // commit: deactivate whole islands, reactivate lively sleepers
        let mut c: usize = 0;
        while c < n
            invariant
                bodies@.len() == n,
                n == mid.len(),
                self.ufind@ == uf_final,
                self.ufind@.len() == n,
                wf_forest(self.ufind@),
                self.can_deactivate@ == cd_final,
                c <= n,
                self.can_deactivate@.len() == n,
                self.to_activate@.len() == 0,
                self.mix_factor == mix,
                forall|j: int|
                    0 <= j < n ==> (cd_final[root_of(uf_final, j)] ==> ((
                    #[trigger] mid[j]).threshold matches Some(t) && mid[j].state.spec_energy()
                        < t as int)),
                forall|j: int| c <= j < n ==> #[trigger] bodies@[j] == mid[j],
                forall|j: int|
                    0 <= j < c ==> #[trigger] bodies@[j] == (if cd_final[root_of(uf_final, j)] {
                        RigidBody {
                            state: ActivationState::Inactive,
                            lin_vel: V2 { x: 0, y: 0 },
                            ang_vel: 0,
                            ..mid[j]
                        }
                    } else if !(mid[j].state is Active) && mid[j].movable && mid[j].threshold
                        is Some {
                        RigidBody {
                            state: ActivationState::Active(
                                sfmul(FX_TWO as int, mid[j].threshold->Some_0 as int) as i64,
                            ),
                            ..mid[j]
                        }
                    } else {
                        mid[j]
                    }),
            decreases n - c,
        {
            let root = find(&self.ufind, c);
            if self.can_deactivate[root] {
                let mut b = bodies[c];
                b.deactivate();
                bodies.set(c, b);
            } else {
                if !bodies[c].is_active() && bodies[c].can_move() {
                    match bodies[c].threshold {
                        Some(t) => {
                            let e2 = fmul(FX_TWO, t);
                            let mut b = bodies[c];
                            b.activate(e2);
                            bodies.set(c, b);
                        },
                        None => {},
                    }
                }
            }
            c += 1;
        }
        proof {
            lemma_update_post(bodies0, mid0, mid, bodies@, pending, mix, uf_final, cd_final);
            // rewrite the per-body commit over the wake-applied description
            assert forall|i2: int| 0 <= i2 < n implies #[trigger] bodies@[i2] == ({
                let m = spec_mid_body(bodies0[i2], mix, i2, pending);
                if cd_final[root_of(uf_final, i2)] {
                    RigidBody {
                        state: ActivationState::Inactive,
                        lin_vel: (V2 { x: 0, y: 0 }),
                        ang_vel: 0,
                        ..m
                    }
                } else if !(m.state is Active) && m.movable && m.threshold is Some {
                    RigidBody {
                        state: ActivationState::Active(
                            sfmul(FX_TWO as int, m.threshold->Some_0 as int) as i64,
                        ),
                        ..m
                    }
                } else {
                    m
                }
            }) by {
                assert(mid[i2] == spec_mid_body(bodies0[i2], mix, i2, pending));
            }
            assert forall|r: int|
                0 <= r < n && root_of(uf_final, r) == r implies ((#[trigger] cd_final[r]) <==> (
            forall|j: int|
                0 <= j < n && root_of(uf_final, j) == r ==> spec_can_sleep(
                    spec_mid_body(bodies0[j], mix, j, pending),
                ))) by {
                if cd_final[r] {
                    assert forall|j: int|
                        0 <= j < n && root_of(uf_final, j) == r implies spec_can_sleep(
                        spec_mid_body(bodies0[j], mix, j, pending),
                    ) by {
                        assert(mid[j] == spec_mid_body(bodies0[j], mix, j, pending));
                        assert(spec_can_sleep(mid[j]));
                    }
                } else {
                    if forall|j: int|
                        0 <= j < n && root_of(uf_final, j) == r ==> spec_can_sleep(
                            spec_mid_body(bodies0[j], mix, j, pending),
                        ) {
                        assert forall|j: int|
                            0 <= j < n && root_of(uf_final, j) == r implies spec_can_sleep(
                            mid[j],
                        ) by {
                            assert(mid[j] == spec_mid_body(bodies0[j], mix, j, pending));
                        }
                        assert(false);
                    }
                }
            }
        }
    }
}

}
