//! Constraint solver using the projected Gauss-Seidel algorithm and
//! warm-starting.
//!
//! Each tick the solver fingerprints the contacts into the impulse cache,
//! assigns dense indices to every movable body a constraint mentions,
//! assembles restitution, friction and joint rows, runs the second-order
//! (velocity) sweeps, applies the velocity deltas, stores damped impulses
//! for the next tick's warm start, and optionally runs a first-order
//! positional pass that applies transform corrections.

use vstd::prelude::*;
use crate::fx::{Fx, FX_ONE, fmul, sfmul, sfadd};
use crate::alg::{V2, Rot2, Iso2, v2_add, v2_scale, sv2_add, sv2_scale, iso_append_translation,
    iso_append_rotation_wrt_point};
use crate::body::RigidBody;
use crate::constraint::{Contact, Constraint};
use crate::ball_in_socket::BallInSocket;
use crate::fixed::Fixed;
use crate::joint_manager::arenas_ok;
use crate::correction::{CorrectionMode, CorrectionParameters};
use crate::velocity_constraint::VelocityConstraint;
use crate::impulse_cache::{ImpulseCache, CacheKey, has_cache_key, spec_quantize};
use crate::contact_equation::{fill_second_order_equation, reinit_to_first_order_equation};
use crate::joint_equation::{joint_side, build_joint_axis_row, build_joint_angular_row,
    angular_error};
use crate::pgs::{Velocities, projected_gauss_seidel_solve, spec_pgs, spec_warm_started};
use crate::contact_equation::{contact_rest_row_ok, contact_friction_row_ok, first_order_row_ok};
use crate::joint_equation::{JointSide, spec_joint_side, joint_axis_row_ok, joint_angular_row_ok, spec_ang_err};
use crate::anchor::{spec_anchor_world_point, spec_anchor_world_iso};
use crate::alg::{siso_compose, siso_append_translation, siso_append_rotation_wrt_point};

verus! {

/// The scalar one half, used for contact midpoints.
pub const FX_HALF: i64 = 500_000;

/// Damping applied to impulses carried into the next tick's warm start.
pub const WARM_START_DAMPING: i64 = 850_000;

/// `c` involves the body behind handle `h`.
pub open spec fn constraint_mentions(
    c: Constraint,
    bis: Seq<BallInSocket>,
    fixeds: Seq<Fixed>,
    h: int,
) -> bool {
    match c {
        Constraint::RBRB(a, b, _) => a == h || b == h,
        Constraint::BallInSocket(id) => bis[id as int].anchor1.body == Some(h as usize) || bis[
            id as int
        ].anchor2.body == Some(h as usize),
        Constraint::Fixed(id) => fixeds[id as int].anchor1.body == Some(h as usize) || fixeds[
            id as int
        ].anchor2.body == Some(h as usize),
    }
}

/// Some constraint involves the body behind handle `h`.
pub open spec fn body_referenced(
    constraints: Seq<Constraint>,
    bis: Seq<BallInSocket>,
    fixeds: Seq<Fixed>,
    h: int,
) -> bool {
    exists|i: int|
        0 <= i < constraints.len() && constraint_mentions(#[trigger] constraints[i], bis, fixeds, h)
}

/// Every constraint's handles point into their arenas.
pub open spec fn constraints_ok(
    constraints: Seq<Constraint>,
    bis: Seq<BallInSocket>,
    fixeds: Seq<Fixed>,
    nbodies: int,
) -> bool {
    forall|i: int|
        0 <= i < constraints.len() ==> match #[trigger] constraints[i] {
            Constraint::RBRB(a, b, _) => a < nbodies && b < nbodies,
            Constraint::BallInSocket(id) => id < bis.len(),
            Constraint::Fixed(id) => id < fixeds.len(),
        }
}

/// The cache fingerprint of a contact between the bodies behind `a` and
/// `b`: both handles and the contact midpoint snapped to the grid.
pub open spec fn rbrb_fingerprint(a: usize, b: usize, ct: Contact, cell: Fx) -> CacheKey {
    let mid = sv2_scale(sv2_add(ct.world1@, ct.world2@), FX_HALF as int);
    (
        a as u64,
        b as u64,
        spec_quantize(mid.0, cell as int) as i64,
        spec_quantize(mid.1, cell as int) as i64,
    )
}


/// A vector value from its view; the components must fit the scalar.
pub open spec fn v2_of(p: (int, int)) -> V2 {
    V2 { x: p.0 as i64, y: p.1 as i64 }
}

/// The value of an optional anchor body.
pub open spec fn opt_body(b: Option<usize>, bodies: Seq<RigidBody>) -> Option<RigidBody> {
    match b {
        Some(h) => Some(bodies[h as int]),
        None => None,
    }
}

/// The positions of the joint constraints, in order.
pub open spec fn spec_joint_list(constraints: Seq<Constraint>, k: int) -> Seq<usize>
    decreases k,
{
    if k <= 0 {
        Seq::empty()
    } else {
        let p = spec_joint_list(constraints, k - 1);
        match constraints[k - 1] {
            Constraint::RBRB(_, _, _) => p,
            _ => p.push((k - 1) as usize),
        }
    }
}

/// The penetration depth of the contact behind cache entry `k`.
pub open spec fn spec_depth_of(constraints: Seq<Constraint>, cache: ImpulseCache, k: int) -> Fx {
    match constraints[cache.cis@[k] as int] {
        Constraint::RBRB(_, _, ct) => ct.depth,
        _ => 0,
    }
}

/// The contact rows of a solve: for each cache entry, a restitution row
/// and a friction row built from the fingerprinted contact, its two
/// bodies, and the cached warm-start impulses.
pub open spec fn contact_rows_ok(
    rest: Seq<VelocityConstraint>,
    fric: Seq<VelocityConstraint>,
    dt: Fx,
    constraints: Seq<Constraint>,
    cache: ImpulseCache,
    bodies: Seq<RigidBody>,
    corr: CorrectionParameters,
) -> bool {
    let nc = cache.keys@.len() as int;
    &&& fric.len() == nc
    &&& rest.len() >= nc
    &&& forall|k: int|
        0 <= k < nc ==> match constraints[cache.cis@[k] as int] {
            Constraint::RBRB(a, b, ct) => contact_rest_row_ok(
                #[trigger] rest[k],
                dt,
                ct,
                bodies[a as int],
                bodies[b as int],
                k as usize,
                cache.warms@[k].0,
                corr,
            ) && contact_friction_row_ok(
                fric[k],
                ct,
                bodies[a as int],
                bodies[b as int],
                k as usize,
                cache.warms@[k].1,
            ),
            _ => false,
        }
}

/// How many rows the first `p` joint constraints contribute: two per
/// ball-in-socket joint, three per fixed joint.
pub open spec fn joint_rows_len(constraints: Seq<Constraint>, jl: Seq<usize>, p: int) -> int
    decreases p,
{
    if p <= 0 {
        0
    } else {
        joint_rows_len(constraints, jl, p - 1) + match constraints[jl[p - 1] as int] {
            Constraint::BallInSocket(_) => 2int,
            Constraint::Fixed(_) => 3int,
            Constraint::RBRB(_, _, _) => 0int,
        }
    }
}

/// The joint rows of a solve, appended after the contact rows at `base`:
/// each ball-in-socket joint contributes its two linear-axis rows, each
/// fixed joint those plus its angular row, built from the joint's world
/// anchors and side data.
pub open spec fn joint_rows_ok(
    rest: Seq<VelocityConstraint>,
    base: int,
    dt: Fx,
    constraints: Seq<Constraint>,
    jl: Seq<usize>,
    p: int,
    bodies: Seq<RigidBody>,
    bis: Seq<BallInSocket>,
    fixeds: Seq<Fixed>,
    jc: Fx,
) -> bool
    decreases p,
{
    if p <= 0 {
        true
    } else {
        joint_rows_ok(rest, base, dt, constraints, jl, p - 1, bodies, bis, fixeds, jc) && ({
            let off = base + joint_rows_len(constraints, jl, p - 1);
            match constraints[jl[p - 1] as int] {
                Constraint::BallInSocket(id) => ({
                    let a1 = v2_of(spec_anchor_world_point(bis[id as int].anchor1, bodies));
                    let a2 = v2_of(spec_anchor_world_point(bis[id as int].anchor2, bodies));
                    let s1 = spec_joint_side(opt_body(bis[id as int].anchor1.body, bodies), a1);
                    let s2 = spec_joint_side(opt_body(bis[id as int].anchor2.body, bodies), a2);
                    joint_axis_row_ok(rest[off], dt, V2 { x: FX_ONE, y: 0 }, a1, a2, s1, s2, jc)
                        && joint_axis_row_ok(
                        rest[off + 1],
                        dt,
                        V2 { x: 0, y: FX_ONE },
                        a1,
                        a2,
                        s1,
                        s2,
                        jc,
                    )
                }),
                Constraint::Fixed(id) => ({
                    let m1 = spec_anchor_world_iso(fixeds[id as int].anchor1, bodies);
                    let m2 = spec_anchor_world_iso(fixeds[id as int].anchor2, bodies);
                    let a1 = v2_of(m1.1);
                    let a2 = v2_of(m2.1);
                    let s1 = spec_joint_side(opt_body(fixeds[id as int].anchor1.body, bodies), a1);
                    let s2 = spec_joint_side(opt_body(fixeds[id as int].anchor2.body, bodies), a2);
                    joint_axis_row_ok(rest[off], dt, V2 { x: FX_ONE, y: 0 }, a1, a2, s1, s2, jc)
                        && joint_axis_row_ok(
                        rest[off + 1],
                        dt,
                        V2 { x: 0, y: FX_ONE },
                        a1,
                        a2,
                        s1,
                        s2,
                        jc,
                    ) && joint_angular_row_ok(
                        rest[off + 2],
                        dt,
                        spec_ang_err(m1.0, m2.0) as i64,
                        s1,
                        s2,
                        jc,
                    )
                }),
                Constraint::RBRB(_, _, _) => false,
            }
        })
    }
}

/// Rows already laid down stay as they are when more are appended.
proof fn lemma_joint_rows_ok_extend(
    rest: Seq<VelocityConstraint>,
    rest2: Seq<VelocityConstraint>,
    base: int,
    dt: Fx,
    constraints: Seq<Constraint>,
    jl: Seq<usize>,
    p: int,
    bodies: Seq<RigidBody>,
    bis: Seq<BallInSocket>,
    fixeds: Seq<Fixed>,
    jc: Fx,
)
    requires
        0 <= base,
        base + joint_rows_len(constraints, jl, p) <= rest.len(),
        rest2.len() >= rest.len(),
        forall|j: int| 0 <= j < rest.len() ==> rest2[j] == rest[j],
        joint_rows_ok(rest, base, dt, constraints, jl, p, bodies, bis, fixeds, jc),
        0 <= p,
    ensures
        joint_rows_ok(rest2, base, dt, constraints, jl, p, bodies, bis, fixeds, jc),
    decreases p,
{
    if p > 0 {
        lemma_joint_rows_len_mono(constraints, jl, p - 1, p);
        lemma_joint_rows_ok_extend(
            rest,
            rest2,
            base,
            dt,
            constraints,
            jl,
            p - 1,
            bodies,
            bis,
            fixeds,
            jc,
        );
        let off = base + joint_rows_len(constraints, jl, p - 1);
        lemma_joint_rows_len_mono(constraints, jl, 0, p - 1);
        match constraints[jl[p - 1] as int] {
            Constraint::BallInSocket(_) => {
                assert(joint_rows_len(constraints, jl, p) == off - base + 2);
                assert(rest2[off] == rest[off]);
                assert(rest2[off + 1] == rest[off + 1]);
            },
            Constraint::Fixed(_) => {
                assert(joint_rows_len(constraints, jl, p) == off - base + 3);
                assert(rest2[off] == rest[off]);
                assert(rest2[off + 1] == rest[off + 1]);
                assert(rest2[off + 2] == rest[off + 2]);
            },
            Constraint::RBRB(_, _, _) => {},
        }
    }
}

/// Row counts grow along the joint list.
proof fn lemma_joint_rows_len_mono(constraints: Seq<Constraint>, jl: Seq<usize>, a: int, b: int)
    requires
        a <= b,
    ensures
        joint_rows_len(constraints, jl, a) <= joint_rows_len(constraints, jl, b),
    decreases b - a,
{
    if a < b {
        lemma_joint_rows_len_mono(constraints, jl, a, b - 1);
    }
}

/// Whether this solve's constraints ask for the first-order positional
/// pass: a positive positional factor and a deep enough contact.
pub open spec fn spec_needs_correction(
    constraints: Seq<Constraint>,
    corr: CorrectionParameters,
) -> bool {
    corr.corr_mode.spec_pos_corr_factor() > 0 && exists|i: int|
        0 <= i < constraints.len() && (#[trigger] constraints[i] matches Constraint::RBRB(
            _,
            _,
            ct,
        ) && ct.depth >= corr.corr_mode.spec_min_depth_for_pos_corr())
}

/// The transform delta the positional pass applies to one body: its
/// pseudo-velocity integrated over the step, a first-order rotation about
/// the body's center of mass followed by a translation.
pub open spec fn spec_pos_delta(mv: Velocities, dt: Fx, com: V2) -> ((int, int), (int, int)) {
    siso_append_translation(
        siso_append_rotation_wrt_point(
            ((FX_ONE as int, 0int), (0int, 0int)),
            (FX_ONE as int, sfmul(mv.av as int, dt as int)),
            com@,
        ),
        sv2_scale(mv.lv@, dt as int),
    )
}

/// Grow `buff` to `size` copies of `val` past its old contents, or shrink
/// it to its first `size` entries.
pub fn resize_buffer<A: Copy>(buff: &mut Vec<A>, size: usize, val: A)
    ensures
        final(buff)@.len() == size,
        forall|i: int|
            0 <= i < size && i < old(buff)@.len() ==> #[trigger] final(buff)@[i] == old(buff)@[i],
        forall|i: int| old(buff)@.len() <= i < size ==> #[trigger] final(buff)@[i] == val,
{
    if buff.len() < size {
        while buff.len() < size
            invariant
                old(buff)@.len() <= buff@.len() <= size,
                forall|i: int| 0 <= i < old(buff)@.len() ==> #[trigger] buff@[i] == old(buff)@[i],
                forall|i: int| old(buff)@.len() <= i < buff@.len() ==> #[trigger] buff@[i] == val,
            decreases size - buff@.len(),
        {
            buff.push(val);
        }
    } else {
        buff.truncate(size);
    }
}

/// Constraint solver using the projected Gauss-Seidel algorithm and
/// warm-starting.
pub struct AccumulatedImpulseSolver {
    /// Correction configuration.
    pub correction: CorrectionParameters,
    /// Warm-start impulse cache.
    pub cache: ImpulseCache,
    /// Sweeps of the first-order (positional) pass.
    pub num_first_order_iter: usize,
    /// Sweeps of the second-order (velocity) pass.
    pub num_second_order_iter: usize,
    /// Buffer of restitution and joint rows.
    pub restitution_constraints: Vec<VelocityConstraint>,
    /// Buffer of friction rows.
    pub friction_constraints: Vec<VelocityConstraint>,
    /// Buffer of per-body velocity deltas.
    pub mj_lambda: Vec<Velocities>,
}

impl AccumulatedImpulseSolver {
    /// Between ticks the cache is well-formed and its current generation
    /// empty.
    pub open spec fn wf(self) -> bool {
        &&& self.cache.wf()
        &&& self.cache.keys@.len() == 0
        &&& self.cache.cell > 0
    }

    /// Creates a new `AccumulatedImpulseSolver`.
    ///
    /// `step` also serves as the spatial quantization cell of the impulse
    /// cache's contact fingerprints.
    pub fn new(
        step: Fx,
        correction_mode: CorrectionMode,
        joint_corr_factor: Fx,
        rest_eps: Fx,
        num_first_order_iter: usize,
        num_second_order_iter: usize,
    ) -> (r: AccumulatedImpulseSolver)
        requires
            step > 0,
        ensures
            r.wf(),
            r.num_first_order_iter == num_first_order_iter,
            r.num_second_order_iter == num_second_order_iter,
            r.correction == (CorrectionParameters {
                corr_mode: correction_mode,
                joint_corr: joint_corr_factor,
                rest_eps,
            }),
            r.cache.cell == step,
            r.cache.prev_keys@.len() == 0,
    {
        AccumulatedImpulseSolver {
            num_first_order_iter,
            num_second_order_iter,
            restitution_constraints: Vec::new(),
            friction_constraints: Vec::new(),
            mj_lambda: Vec::new(),
            cache: ImpulseCache::new(step),
            correction: CorrectionParameters {
                corr_mode: correction_mode,
                joint_corr: joint_corr_factor,
                rest_eps,
            },
        }
    }

    /// Gets the number of iterations done by the penetration depth
    /// correction solver.
    pub fn num_first_order_iter(&self) -> (r: usize)
        ensures
            r == self.num_first_order_iter,
    {
        self.num_first_order_iter
    }

    /// Sets the number of iterations done by the penetration depth
    /// correction solver.
    pub fn set_num_first_order_iter(&mut self, num: usize)
        ensures
            *final(self) == (AccumulatedImpulseSolver { num_first_order_iter: num, ..*old(self) }),
    {
        self.num_first_order_iter = num;
    }

    /// Gets the number of iterations done by the velocity constraint
    /// solver.
    pub fn num_second_order_iter(&self) -> (r: usize)
        ensures
            r == self.num_second_order_iter,
    {
        self.num_second_order_iter
    }

    /// Sets the number of iterations done by the velocity constraint
    /// solver.
    pub fn set_num_second_order_iter(&mut self, num: usize)
        ensures
            *final(self) == (AccumulatedImpulseSolver {
                num_second_order_iter: num,
                ..*old(self)
            }),
    {
        self.num_second_order_iter = num;
    }

    /// Resize both row buffers.
    fn resize_buffers(&mut self, num_restitution_equations: usize, num_friction_equations: usize)
        ensures
            final(self).restitution_constraints@.len() == num_restitution_equations,
            final(self).friction_constraints@.len() == num_friction_equations,
            forall|i: int|
                0 <= i < num_restitution_equations && i < old(self).restitution_constraints@.len() ==> #[trigger] final(self).restitution_constraints@[i] == old(self).restitution_constraints@[i],
            forall|i: int|
                0 <= i < num_friction_equations && i < old(self).friction_constraints@.len()
                    ==> #[trigger] final(self).friction_constraints@[i] == old(self).friction_constraints@[i],
            *final(self) == (AccumulatedImpulseSolver {
                restitution_constraints: final(self).restitution_constraints,
                friction_constraints: final(self).friction_constraints,
                ..*old(self)
            }),
    {
        resize_buffer(
            &mut self.restitution_constraints,
            num_restitution_equations,
            VelocityConstraint::new(),
        );
        resize_buffer(
            &mut self.friction_constraints,
            num_friction_equations,
            VelocityConstraint::new(),
        );
    }
}

/// Mark the body behind `h` as waiting for an index.
fn mark_body(bodies: &mut Vec<RigidBody>, h: usize)
    requires
        h < old(bodies)@.len(),
    ensures
        final(bodies)@.len() == old(bodies)@.len(),
        final(bodies)@ == old(bodies)@.update(
            h as int,
            (RigidBody { index: -2i64, ..old(bodies)@[h as int] }),
        ),
{
    let mut b = bodies[h];
    b.set_index(-2);
    bodies.set(h, b);
    proof {
        assert(bodies@ =~= old(bodies)@.update(
            h as int,
            (RigidBody { index: -2i64, ..old(bodies)@[h as int] }),
        ));
    }
}

/// Give the body behind `h` its dense index on first sight: a fresh row
/// for a movable body, `-1` for an immovable one.
fn set_body_index(bodies: &mut Vec<RigidBody>, dense: &mut Vec<usize>, h: usize)
    requires
        h < old(bodies)@.len(),
        old(dense)@.len() < i64::MAX as int,
    ensures
        final(bodies)@.len() == old(bodies)@.len(),
        old(bodies)@[h as int].index != -2 ==> final(bodies)@ == old(bodies)@ && final(dense)@
            == old(dense)@,
        old(bodies)@[h as int].index == -2 && old(bodies)@[h as int].movable ==> (final(bodies)@
            == old(bodies)@.update(
            h as int,
            (RigidBody { index: old(dense)@.len() as i64, ..old(bodies)@[h as int] }),
        ) && final(dense)@ == old(dense)@.push(h)),
        old(bodies)@[h as int].index == -2 && !old(bodies)@[h as int].movable ==> (final(bodies)@ == old(bodies)@.update(
            h as int,
            (RigidBody { index: -1i64, ..old(bodies)@[h as int] }),
        ) && final(dense)@ == old(dense)@),
{
    let mut b = bodies[h];
    if b.index == -2 {
        if b.can_move() {
            b.set_index(dense.len() as i64);
            bodies.set(h, b);
            dense.push(h);
        } else {
            b.set_index(-1);
            bodies.set(h, b);
        }
        proof {
            assert(bodies@ =~= old(bodies)@.update(h as int, bodies@[h as int]));
        }
    }
}

/// Some constraint among the first `n` involves the body behind `h`.
pub open spec fn referenced_upto(
    constraints: Seq<Constraint>,
    n: int,
    bis: Seq<BallInSocket>,
    fixeds: Seq<Fixed>,
    h: int,
) -> bool {
    exists|i: int|
        0 <= i < n && constraint_mentions(#[trigger] constraints[i], bis, fixeds, h)
}

/// Assign a dense solver index to every movable body that some constraint
/// mentions, `-1` to every immovable one, and collect the joint
/// constraints.
///
/// Returns the dense body list (handle of the body behind each solver row)
/// and the positions of the joint constraints. Afterwards every movable
/// referenced body's index names its row in the dense list.
#[verifier::rlimit(100)]
#[verifier::spinoff_prover]
pub fn assign_body_indices(
    constraints: &Vec<Constraint>,
    bodies: &mut Vec<RigidBody>,
    bis: &Vec<BallInSocket>,
    fixeds: &Vec<Fixed>,
) -> (r: (Vec<usize>, Vec<usize>))
    requires
        constraints_ok(constraints@, bis@, fixeds@, old(bodies)@.len() as int),
        arenas_ok(bis@, fixeds@, old(bodies)@.len() as int),
        old(bodies)@.len() <= i64::MAX as int,
        constraints@.len() < 0x1fff_ffff_ffff_ffff,
    ensures
        final(bodies)@.len() == old(bodies)@.len(),
        forall|h: int|
            0 <= h < old(bodies)@.len() ==> #[trigger] final(bodies)@[h] == (RigidBody {
                index: final(bodies)@[h].index,
                ..old(bodies)@[h]
            }),
        forall|h: int|
            0 <= h < old(bodies)@.len() && !body_referenced(constraints@, bis@, fixeds@, h)
                ==> #[trigger] final(bodies)@[h] == old(bodies)@[h],
        forall|h: int|
            0 <= h < old(bodies)@.len() && body_referenced(constraints@, bis@, fixeds@, h)
                && old(bodies)@[h].movable ==> 0 <= (#[trigger] final(bodies)@[h]).index
                < r.0@.len() && r.0@[final(bodies)@[h].index as int] == h,
        forall|h: int|
            0 <= h < old(bodies)@.len() && body_referenced(constraints@, bis@, fixeds@, h)
                && !old(bodies)@[h].movable ==> (#[trigger] final(bodies)@[h]).index == -1,
        forall|k: int|
            0 <= k < r.0@.len() ==> (#[trigger] r.0@[k]) < old(bodies)@.len() && final(bodies)@[r.0@[k] as int].index == k && final(bodies)@[r.0@[k] as int].movable
                && body_referenced(constraints@, bis@, fixeds@, r.0@[k] as int),
        forall|p: int|
            0 <= p < r.1@.len() ==> (#[trigger] r.1@[p]) < constraints@.len() && !(constraints@[
                r.1@[p] as int
            ] is RBRB),
        forall|i: int|
            0 <= i < constraints@.len() && !(#[trigger] constraints@[i] is RBRB) ==> r.1@.contains(
                i as usize,
            ),
        r.1@ == spec_joint_list(constraints@, constraints@.len() as int),
        r.1@.len() <= constraints@.len(),
        r.0@.len() <= 2 * constraints@.len(),
{
    let n = bodies.len();
    let ghost bodies0 = bodies@;
    let nc = constraints.len();
    // first pass: mark every mentioned body as waiting
    let mut i: usize = 0;
    while i < nc
        invariant
            bodies@.len() == n,
            n == bodies0.len(),
            nc == constraints@.len(),
            i <= nc,
            constraints_ok(constraints@, bis@, fixeds@, n as int),
            arenas_ok(bis@, fixeds@, n as int),
            forall|h: int|
                0 <= h < n && referenced_upto(constraints@, i as int, bis@, fixeds@, h)
                    ==> #[trigger] bodies@[h] == (RigidBody { index: -2i64, ..bodies0[h] }),
            forall|h: int|
                0 <= h < n && !referenced_upto(constraints@, i as int, bis@, fixeds@, h)
                    ==> #[trigger] bodies@[h] == bodies0[h],
        decreases nc - i,
    {
        let c = constraints[i];
        match c {
            Constraint::RBRB(a, b, _) => {
                mark_body(bodies, a);
                mark_body(bodies, b);
            },
            Constraint::BallInSocket(id) => {
                match bis[id].anchor1.body {
                    Some(h) => mark_body(bodies, h),
                    None => {},
                }
                match bis[id].anchor2.body {
                    Some(h) => mark_body(bodies, h),
                    None => {},
                }
            },
            Constraint::Fixed(id) => {
                match fixeds[id].anchor1.body {
                    Some(h) => mark_body(bodies, h),
                    None => {},
                }
                match fixeds[id].anchor2.body {
                    Some(h) => mark_body(bodies, h),
                    None => {},
                }
            },
        }
        proof {
            assert forall|h: int|
                0 <= h < n && referenced_upto(
                    constraints@,
                    i + 1,
                    bis@,
                    fixeds@,
                    h,
                ) implies #[trigger] bodies@[h] == (RigidBody { index: -2i64, ..bodies0[h] }) by {
                if !referenced_upto(constraints@, i as int, bis@, fixeds@, h) {
                    let w = choose|w: int|
                        0 <= w < i + 1 && constraint_mentions(
                            #[trigger] constraints@[w],
                            bis@,
                            fixeds@,
                            h,
                        );
                    assert(w == i as int);
                    assert(constraint_mentions(constraints@[i as int], bis@, fixeds@, h));
                }
            }
            assert forall|h: int|
                0 <= h < n && !referenced_upto(
                    constraints@,
                    i + 1,
                    bis@,
                    fixeds@,
                    h,
                ) implies #[trigger] bodies@[h] == bodies0[h] by {
                assert(!constraint_mentions(constraints@[i as int], bis@, fixeds@, h));
                assert(!referenced_upto(constraints@, i as int, bis@, fixeds@, h));
            }
        }
        i += 1;
    }
    // second pass: dense assignment on first sight
    let mut dense: Vec<usize> = Vec::new();
    let mut jlist: Vec<usize> = Vec::new();
    let mut j: usize = 0;
    while j < nc
        invariant
            bodies@.len() == n,
            n == bodies0.len(),
            n <= i64::MAX as int,
            nc == constraints@.len(),
            nc < 0x1fff_ffff_ffff_ffff,
            j <= nc,
            constraints_ok(constraints@, bis@, fixeds@, n as int),
            arenas_ok(bis@, fixeds@, n as int),
            dense@.len() <= 2 * j,
            jlist@.len() <= j,
            jlist@ == spec_joint_list(constraints@, j as int),
            forall|h: int|
                0 <= h < n && !body_referenced(constraints@, bis@, fixeds@, h)
                    ==> #[trigger] bodies@[h] == bodies0[h],
            forall|h: int|
                0 <= h < n ==> #[trigger] bodies@[h] == (RigidBody {
                    index: bodies@[h].index,
                    ..bodies0[h]
                }),
            forall|h: int|
                0 <= h < n && body_referenced(constraints@, bis@, fixeds@, h) && bodies0[
                    h
                ].movable ==> (#[trigger] bodies@[h]).index == -2 || (0 <= bodies@[
                    h
                ].index < dense@.len() && dense@[bodies@[h].index as int] as int == h),
            forall|h: int|
                0 <= h < n && body_referenced(constraints@, bis@, fixeds@, h) && !bodies0[
                    h
                ].movable ==> (#[trigger] bodies@[h]).index == -2 || bodies@[h].index == -1,
            forall|h: int|
                0 <= h < n && referenced_upto(constraints@, j as int, bis@, fixeds@, h)
                    && bodies0[h].movable ==> 0 <= (#[trigger] bodies@[h]).index < dense@.len()
                    && dense@[bodies@[h].index as int] as int == h,
            forall|h: int|
                0 <= h < n && referenced_upto(constraints@, j as int, bis@, fixeds@, h)
                    && !bodies0[h].movable ==> (#[trigger] bodies@[h]).index == -1,
            forall|k: int|
                0 <= k < dense@.len() ==> (#[trigger] dense@[k]) < n && bodies@[
                    dense@[k] as int
                ].index == k && bodies0[dense@[k] as int].movable && body_referenced(
                    constraints@,
                    bis@,
                    fixeds@,
                    dense@[k] as int,
                ),
            forall|p: int|
                0 <= p < jlist@.len() ==> (#[trigger] jlist@[p]) < nc && !(constraints@[
                    jlist@[p] as int
                ] is RBRB),
            forall|w: int|
                0 <= w < j && !(#[trigger] constraints@[w] is RBRB) ==> jlist@.contains(
                    w as usize,
                ),
        decreases nc - j,
    {
        let c = constraints[j];
        let ghost jlist_prev = jlist@;
        match c {
            Constraint::RBRB(a, b, _) => {
                set_body_index(bodies, &mut dense, a);
                set_body_index(bodies, &mut dense, b);
            },
            Constraint::BallInSocket(id) => {
                jlist.push(j);
                match bis[id].anchor1.body {
                    Some(h) => set_body_index(bodies, &mut dense, h),
                    None => {},
                }
                match bis[id].anchor2.body {
                    Some(h) => set_body_index(bodies, &mut dense, h),
                    None => {},
                }
            },
            Constraint::Fixed(id) => {
                jlist.push(j);
                match fixeds[id].anchor1.body {
                    Some(h) => set_body_index(bodies, &mut dense, h),
                    None => {},
                }
                match fixeds[id].anchor2.body {
                    Some(h) => set_body_index(bodies, &mut dense, h),
                    None => {},
                }
            },
        }
        proof {
            assert forall|h: int|
                0 <= h < n && referenced_upto(constraints@, j + 1, bis@, fixeds@, h) && bodies0[
                    h
                ].movable implies 0 <= (#[trigger] bodies@[h]).index < dense@.len() && dense@[
                bodies@[h].index as int
            ] as int == h by {
                if !referenced_upto(constraints@, j as int, bis@, fixeds@, h) {
                    let w = choose|w: int|
                        0 <= w < j + 1 && constraint_mentions(
                            #[trigger] constraints@[w],
                            bis@,
                            fixeds@,
                            h,
                        );
                    assert(w == j as int);
                    assert(constraint_mentions(constraints@[j as int], bis@, fixeds@, h));
                }
            }
            assert forall|h: int|
                0 <= h < n && referenced_upto(constraints@, j + 1, bis@, fixeds@, h) && !bodies0[
                    h
                ].movable implies (#[trigger] bodies@[h]).index == -1 by {
                if !referenced_upto(constraints@, j as int, bis@, fixeds@, h) {
                    let w = choose|w: int|
                        0 <= w < j + 1 && constraint_mentions(
                            #[trigger] constraints@[w],
                            bis@,
                            fixeds@,
                            h,
                        );
                    assert(w == j as int);
                    assert(constraint_mentions(constraints@[j as int], bis@, fixeds@, h));
                }
            }
            assert forall|w: int|
                0 <= w < j + 1 && !(#[trigger] constraints@[w] is RBRB) implies jlist@.contains(
                w as usize,
            ) by {
                if w < j {
                    let q = choose|q: int| 0 <= q < jlist_prev.len() && jlist_prev[q] == w as usize;
                    assert(jlist@[q] == w as usize);
                } else {
                    assert(jlist@[jlist@.len() - 1] == w as usize);
                }
            }
        }
        j += 1;
    }
    proof {
        assert forall|h: int|
            0 <= h < n && body_referenced(constraints@, bis@, fixeds@, h) && bodies0[
                h
            ].movable implies 0 <= (#[trigger] bodies@[h]).index < dense@.len() && dense@[
            bodies@[h].index as int
        ] as int == h by {
            assert(referenced_upto(constraints@, nc as int, bis@, fixeds@, h));
        }
        assert forall|h: int|
            0 <= h < n && body_referenced(constraints@, bis@, fixeds@, h) && !bodies0[
                h
            ].movable implies (#[trigger] bodies@[h]).index == -1 by {
            assert(referenced_upto(constraints@, nc as int, bis@, fixeds@, h));
        }
    }
    (dense, jlist)
}

impl AccumulatedImpulseSolver {
    /// Run one tick's resolution over pre-indexed bodies: assemble the
    /// rows, run the velocity sweeps, apply the deltas, store damped
    /// impulses for the next warm start, and run the positional pass when
    /// the correction mode asks for one.
    #[verifier::rlimit(100)]
    #[verifier::spinoff_prover]
    fn do_solve(
        &mut self,
        dt: Fx,
        constraints: &Vec<Constraint>,
        joints_list: &Vec<usize>,
        dense: &Vec<usize>,
        bodies: &mut Vec<RigidBody>,
        bis: &Vec<BallInSocket>,
        fixeds: &Vec<Fixed>,
    ) -> (rows: Ghost<(Seq<VelocityConstraint>, Seq<VelocityConstraint>)>)
        requires
            old(self).cache.wf(),
            old(self).cache.cell > 0,
            forall|k: int|
                0 <= k < old(self).cache.cis@.len() ==> (#[trigger] old(self).cache.cis@[k])
                    < constraints@.len() && constraints@[old(self).cache.cis@[k] as int] is RBRB,
            constraints_ok(constraints@, bis@, fixeds@, old(bodies)@.len() as int),
            arenas_ok(bis@, fixeds@, old(bodies)@.len() as int),
            forall|h: int|
                0 <= h < old(bodies)@.len() && body_referenced(constraints@, bis@, fixeds@, h)
                    ==> -1 <= (#[trigger] old(bodies)@[h]).index < dense@.len(),
            forall|k: int| 0 <= k < dense@.len() ==> (#[trigger] dense@[k]) < old(bodies)@.len(),
            forall|k1: int, k2: int|
                0 <= k1 < k2 < dense@.len() ==> dense@[k1] != dense@[k2],
            forall|p: int|
                0 <= p < joints_list@.len() ==> (#[trigger] joints_list@[p]) < constraints@.len()
                    && !(constraints@[joints_list@[p] as int] is RBRB),
            old(self).cache.keys@.len() + 3 * joints_list@.len() + 3 < usize::MAX as int,
        ensures
            final(bodies)@.len() == old(bodies)@.len(),
            forall|h: int|
                0 <= h < old(bodies)@.len() && (forall|k: int|
                    0 <= k < dense@.len() ==> (#[trigger] dense@[k]) as int != h) ==> final(bodies)@[h] == old(bodies)@[h],
            forall|h: int|
                0 <= h < old(bodies)@.len() ==> #[trigger] final(bodies)@[h] == (RigidBody {
                    lin_vel: final(bodies)@[h].lin_vel,
                    ang_vel: final(bodies)@[h].ang_vel,
                    position: final(bodies)@[h].position,
                    ..old(bodies)@[h]
                }),
            final(self).cache.wf(),
            final(self).cache.keys@.len() == 0,
            final(self).cache.cell == old(self).cache.cell,
            final(self).cache.prev_keys@ == old(self).cache.keys@,
            final(self).correction == old(self).correction,
            final(self).num_first_order_iter == old(self).num_first_order_iter,
            final(self).num_second_order_iter == old(self).num_second_order_iter,
            // the solving itself: there stand rows assembled exactly from
            // the fingerprinted contacts and the listed joints whose
            // projected Gauss-Seidel fold this call applied: every dense
            // body's velocities gain its accumulated delta, the damped
            // solved impulses become the next warm-start generation, and
            // the positional pass (run exactly when asked for) applies
            // transform deltas without touching velocities
            ({
                let rest0 = rows@.0;
                let fric0 = rows@.1;
                {
                    &&& contact_rows_ok(
                        rest0,
                        fric0,
                        dt,
                        constraints@,
                        old(self).cache,
                        old(bodies)@,
                        old(self).correction,
                    )
                    &&& rest0.len() == old(self).cache.keys@.len() + joint_rows_len(
                        constraints@,
                        joints_list@,
                        joints_list@.len() as int,
                    )
                    &&& joint_rows_ok(
                        rest0,
                        old(self).cache.keys@.len() as int,
                        dt,
                        constraints@,
                        joints_list@,
                        joints_list@.len() as int,
                        old(bodies)@,
                        bis@,
                        fixeds@,
                        old(self).correction.joint_corr,
                    )
                    &&& ({
                        let solved = spec_pgs(
                            rest0,
                            fric0,
                            spec_warm_started(rest0, fric0, dense@.len() as int),
                            old(self).num_second_order_iter as int,
                        );
                        &&& (forall|k: int|
                            0 <= k < dense@.len() ==> (#[trigger] final(bodies)@[dense@[k] as int]).lin_vel == v2_of(
                                sv2_add(
                                    old(bodies)@[dense@[k] as int].lin_vel@,
                                    solved.2[k].lv@,
                                ),
                            ) && final(bodies)@[dense@[k] as int].ang_vel as int == sfadd(
                                old(bodies)@[dense@[k] as int].ang_vel as int,
                                solved.2[k].av as int,
                            ))
                        &&& final(self).cache.prev_imps@.len() == old(self).cache.keys@.len()
                        &&& (forall|k: int|
                            0 <= k < old(self).cache.keys@.len() ==> #[trigger] final(self).cache.prev_imps@[k] == (
                                (sfmul(
                                    WARM_START_DAMPING as int,
                                    solved.0[k].impulse as int,
                                ) as i64),
                                (sfmul(
                                    WARM_START_DAMPING as int,
                                    solved.1[k].impulse as int,
                                ) as i64),
                            ))
                        &&& (!spec_needs_correction(constraints@, old(self).correction)
                            ==> forall|h: int|
                            0 <= h < old(bodies)@.len() ==> (#[trigger] final(bodies)@[h]).position == old(bodies)@[h].position)
                        &&& (spec_needs_correction(constraints@, old(self).correction)
                            ==> exists|rows1: Seq<VelocityConstraint>|
                            {
                                &&& #[trigger] rows1.len() == old(self).cache.keys@.len() as int
                                &&& (forall|k: int|
                                    0 <= k < rows1.len() ==> first_order_row_ok(
                                        #[trigger] rows1[k],
                                        solved.0[k],
                                        dt,
                                        spec_depth_of(constraints@, old(self).cache, k),
                                        old(self).correction,
                                    ))
                                &&& ({
                                    let mj2 = spec_pgs(
                                        rows1,
                                        Seq::<VelocityConstraint>::empty(),
                                        spec_warm_started(
                                            rows1,
                                            Seq::<VelocityConstraint>::empty(),
                                            dense@.len() as int,
                                        ),
                                        old(self).num_first_order_iter as int,
                                    ).2;
                                    forall|k: int|
                                        0 <= k < dense@.len() ==> (#[trigger] final(bodies)@[dense@[k] as int]).position@ == siso_compose(
                                            spec_pos_delta(
                                                mj2[k],
                                                dt,
                                                old(bodies)@[dense@[k] as int].spec_center_of_mass(),
                                            ),
                                            old(bodies)@[dense@[k] as int].position@,
                                        )
                                })
                            })
                    })
                }
            }),
    {
        let ghost bodies0 = bodies@;
        let ghost cache0 = self.cache;
        let nbodies = bodies.len();
        let ndense = dense.len();
        let ncontacts = self.cache.len();
        // joint row count
        let mut njoint: usize = 0;
        let mut p: usize = 0;
        while p < joints_list.len()
            invariant
                p <= joints_list@.len(),
                njoint <= 3 * p,
                forall|q: int|
                    0 <= q < joints_list@.len() ==> (#[trigger] joints_list@[q])
                        < constraints@.len() && !(constraints@[joints_list@[q] as int] is RBRB),
                joints_list@.len() * 3 + 3 < usize::MAX as int,
            decreases joints_list@.len() - p,
        {
            match constraints[joints_list[p]] {
                Constraint::BallInSocket(_) => {
                    njoint += 2;
                },
                Constraint::Fixed(_) => {
                    njoint += 3;
                },
                Constraint::RBRB(_, _, _) => {},
            }
            p += 1;
        }
        self.resize_buffers(0, 0);
        // contact rows
        let mut depths: Vec<Fx> = Vec::new();
        let mut k: usize = 0;
        while k < ncontacts
            invariant
                self.cache == cache0,
                self.cache.wf(),
                ncontacts == self.cache.keys@.len(),
                bodies@ == bodies0,
                bodies@.len() == nbodies,
                ndense == dense@.len(),
                k <= ncontacts,
                self.restitution_constraints@.len() == k,
                self.friction_constraints@.len() == k,
                depths@.len() == k,
                forall|q: int|
                    0 <= q < self.cache.cis@.len() ==> (#[trigger] self.cache.cis@[q])
                        < constraints@.len() && constraints@[self.cache.cis@[q] as int] is RBRB,
                constraints_ok(constraints@, bis@, fixeds@, nbodies as int),
                forall|h: int|
                    0 <= h < nbodies as int && body_referenced(constraints@, bis@, fixeds@, h)
                        ==> -1 <= (#[trigger] bodies@[h]).index < ndense as int,
                forall|q: int|
                    0 <= q < k ==> (#[trigger] self.restitution_constraints@[q]).id1
                        < ndense as int && self.restitution_constraints@[q].id2 < ndense as int,
                forall|q: int|
                    0 <= q < k ==> (#[trigger] self.friction_constraints@[q]).id1 < ndense as int
                        && self.friction_constraints@[q].id2 < ndense as int
                        && self.friction_constraints@[q].friction_limit_id < ncontacts,
                forall|q: int|
                    0 <= q < k ==> match constraints@[cache0.cis@[q] as int] {
                        Constraint::RBRB(a, b, ct) => contact_rest_row_ok(
                            #[trigger] self.restitution_constraints@[q],
                            dt,
                            ct,
                            bodies0[a as int],
                            bodies0[b as int],
                            q as usize,
                            cache0.warms@[q].0,
                            old(self).correction,
                        ) && contact_friction_row_ok(
                            self.friction_constraints@[q],
                            ct,
                            bodies0[a as int],
                            bodies0[b as int],
                            q as usize,
                            cache0.warms@[q].1,
                        ),
                        _ => false,
                    },
                forall|q: int|
                    0 <= q < k ==> #[trigger] depths@[q] == spec_depth_of(
                        constraints@,
                        cache0,
                        q,
                    ),
                *self == (AccumulatedImpulseSolver {
                    restitution_constraints: self.restitution_constraints,
                    friction_constraints: self.friction_constraints,
                    ..*old(self)
                }),
            decreases ncontacts - k,
        {
            let ci = self.cache.entry_ci(k);
            let c = constraints[ci];
            match c {
                Constraint::RBRB(a, b, ct) => {
                    proof {
                        assert(constraint_mentions(constraints@[ci as int], bis@, fixeds@, a as int));
                        assert(body_referenced(constraints@, bis@, fixeds@, a as int));
                        assert(constraint_mentions(constraints@[ci as int], bis@, fixeds@, b as int));
                        assert(body_referenced(constraints@, bis@, fixeds@, b as int));
                    }
                    let warm = self.cache.entry_warm(k);
                    let rows = fill_second_order_equation(
                        dt,
                        &ct,
                        &bodies[a],
                        &bodies[b],
                        k,
                        warm.0,
                        warm.1,
                        &self.correction,
                    );
                    self.restitution_constraints.push(rows.0);
                    self.friction_constraints.push(rows.1);
                    depths.push(ct.depth);
                },
                Constraint::BallInSocket(_) => {
                    proof {
                        assert(false);
                    }
                },
                Constraint::Fixed(_) => {
                    proof {
                        assert(false);
                    }
                },
            }
            k += 1;
        }
        // joint rows
        let ghost crows = self.restitution_constraints@;
        let ghost cfr = self.friction_constraints@;
        let mut p2: usize = 0;
        while p2 < joints_list.len()
            invariant
                self.cache == cache0,
                self.cache.wf(),
                ncontacts == self.cache.keys@.len(),
                bodies@ == bodies0,
                bodies@.len() == nbodies,
                ndense == dense@.len(),
                p2 <= joints_list@.len(),
                self.restitution_constraints@.len() >= ncontacts,
                self.restitution_constraints@.len() == ncontacts + joint_rows_len(
                    constraints@,
                    joints_list@,
                    p2 as int,
                ),
                joint_rows_ok(
                    self.restitution_constraints@,
                    ncontacts as int,
                    dt,
                    constraints@,
                    joints_list@,
                    p2 as int,
                    bodies0,
                    bis@,
                    fixeds@,
                    old(self).correction.joint_corr,
                ),
                forall|q: int|
                    0 <= q < ncontacts ==> #[trigger] self.restitution_constraints@[q]
                        == crows[q],
                self.friction_constraints@ == cfr,
                joints_list@.len() * 3 + ncontacts + 3 < usize::MAX as int,
                self.friction_constraints@.len() == ncontacts,
                constraints_ok(constraints@, bis@, fixeds@, nbodies as int),
                arenas_ok(bis@, fixeds@, nbodies as int),
                forall|q: int|
                    0 <= q < joints_list@.len() ==> (#[trigger] joints_list@[q])
                        < constraints@.len() && !(constraints@[joints_list@[q] as int] is RBRB),
                forall|h: int|
                    0 <= h < nbodies as int && body_referenced(constraints@, bis@, fixeds@, h)
                        ==> -1 <= (#[trigger] bodies@[h]).index < ndense as int,
                forall|q: int|
                    0 <= q < self.restitution_constraints@.len() ==> (
                    #[trigger] self.restitution_constraints@[q]).id1 < ndense as int
                        && self.restitution_constraints@[q].id2 < ndense as int,
                forall|q: int|
                    0 <= q < ncontacts ==> (#[trigger] self.friction_constraints@[q]).id1
                        < ndense as int && self.friction_constraints@[q].id2 < ndense as int
                        && self.friction_constraints@[q].friction_limit_id < ncontacts,
                *self == (AccumulatedImpulseSolver {
                    restitution_constraints: self.restitution_constraints,
                    friction_constraints: self.friction_constraints,
                    ..*old(self)
                }),
            decreases joints_list@.len() - p2,
        {
            let ji = joints_list[p2];
            let c = constraints[ji];
            match c {
                Constraint::BallInSocket(id) => {
                    proof {
                        match bis@[id as int].anchor1.body {
                            Some(h) => {
                                assert(constraint_mentions(
                                    constraints@[ji as int],
                                    bis@,
                                    fixeds@,
                                    h as int,
                                ));
                                assert(body_referenced(constraints@, bis@, fixeds@, h as int));
                            },
                            None => {},
                        }
                        match bis@[id as int].anchor2.body {
                            Some(h) => {
                                assert(constraint_mentions(
                                    constraints@[ji as int],
                                    bis@,
                                    fixeds@,
                                    h as int,
                                ));
                                assert(body_referenced(constraints@, bis@, fixeds@, h as int));
                            },
                            None => {},
                        }
                    }
                    let a1 = bis[id].anchor1_pos(bodies);
                    let a2 = bis[id].anchor2_pos(bodies);
                    let s1 = joint_side(
                        match bis[id].anchor1.body {
                            Some(h) => Some(&bodies[h]),
                            None => None,
                        },
                        &a1,
                    );
                    let s2 = joint_side(
                        match bis[id].anchor2.body {
                            Some(h) => Some(&bodies[h]),
                            None => None,
                        },
                        &a2,
                    );
                    let rowx = build_joint_axis_row(
                        dt,
                        &V2 { x: FX_ONE, y: 0 },
                        &a1,
                        &a2,
                        &s1,
                        &s2,
                        self.correction.joint_corr,
                    );
                    let rowy = build_joint_axis_row(
                        dt,
                        &V2 { x: 0, y: FX_ONE },
                        &a1,
                        &a2,
                        &s1,
                        &s2,
                        self.correction.joint_corr,
                    );
                    let ghost rows_before = self.restitution_constraints@;
                    self.restitution_constraints.push(rowx);
                    self.restitution_constraints.push(rowy);
                    proof {
                        let jl = joints_list@;
                        let jc = old(self).correction.joint_corr;
                        lemma_joint_rows_len_mono(constraints@, jl, 0, p2 as int);
                        assert(joint_rows_len(constraints@, jl, p2 + 1) == joint_rows_len(
                            constraints@,
                            jl,
                            p2 as int,
                        ) + 2);
                        lemma_joint_rows_ok_extend(
                            rows_before,
                            self.restitution_constraints@,
                            ncontacts as int,
                            dt,
                            constraints@,
                            jl,
                            p2 as int,
                            bodies0,
                            bis@,
                            fixeds@,
                            jc,
                        );
                        assert(a1 == v2_of(spec_anchor_world_point(bis@[id as int].anchor1, bodies0)));
                        assert(a2 == v2_of(spec_anchor_world_point(bis@[id as int].anchor2, bodies0)));
                        assert(s1 == spec_joint_side(opt_body(bis@[id as int].anchor1.body, bodies0), a1));
                        assert(s2 == spec_joint_side(opt_body(bis@[id as int].anchor2.body, bodies0), a2));
                        let off = ncontacts as int + joint_rows_len(constraints@, jl, p2 as int);
                        assert(self.restitution_constraints@[off] == rowx);
                        assert(self.restitution_constraints@[off + 1] == rowy);
                        assert(joint_rows_ok(
                            self.restitution_constraints@,
                            ncontacts as int,
                            dt,
                            constraints@,
                            jl,
                            p2 + 1,
                            bodies0,
                            bis@,
                            fixeds@,
                            jc,
                        ));
                    }
                },
                Constraint::Fixed(id) => {
                    proof {
                        match fixeds@[id as int].anchor1.body {
                            Some(h) => {
                                assert(constraint_mentions(
                                    constraints@[ji as int],
                                    bis@,
                                    fixeds@,
                                    h as int,
                                ));
                                assert(body_referenced(constraints@, bis@, fixeds@, h as int));
                            },
                            None => {},
                        }
                        match fixeds@[id as int].anchor2.body {
                            Some(h) => {
                                assert(constraint_mentions(
                                    constraints@[ji as int],
                                    bis@,
                                    fixeds@,
                                    h as int,
                                ));
                                assert(body_referenced(constraints@, bis@, fixeds@, h as int));
                            },
                            None => {},
                        }
                    }
                    let a1 = fixeds[id].anchor1_pos(bodies);
                    let a2 = fixeds[id].anchor2_pos(bodies);
                    let s1 = joint_side(
                        match fixeds[id].anchor1.body {
                            Some(h) => Some(&bodies[h]),
                            None => None,
                        },
                        &a1.tr,
                    );
                    let s2 = joint_side(
                        match fixeds[id].anchor2.body {
                            Some(h) => Some(&bodies[h]),
                            None => None,
                        },
                        &a2.tr,
                    );
                    let rowx = build_joint_axis_row(
                        dt,
                        &V2 { x: FX_ONE, y: 0 },
                        &a1.tr,
                        &a2.tr,
                        &s1,
                        &s2,
                        self.correction.joint_corr,
                    );
                    let rowy = build_joint_axis_row(
                        dt,
                        &V2 { x: 0, y: FX_ONE },
                        &a1.tr,
                        &a2.tr,
                        &s1,
                        &s2,
                        self.correction.joint_corr,
                    );
                    let err = angular_error(&a1.rot, &a2.rot);
                    let rowa = build_joint_angular_row(dt, err, &s1, &s2, self.correction.joint_corr);
                    let ghost rows_before = self.restitution_constraints@;
                    self.restitution_constraints.push(rowx);
                    self.restitution_constraints.push(rowy);
                    self.restitution_constraints.push(rowa);
                    proof {
                        let jl = joints_list@;
                        let jc = old(self).correction.joint_corr;
                        lemma_joint_rows_len_mono(constraints@, jl, 0, p2 as int);
                        assert(joint_rows_len(constraints@, jl, p2 + 1) == joint_rows_len(
                            constraints@,
                            jl,
                            p2 as int,
                        ) + 3);
                        lemma_joint_rows_ok_extend(
                            rows_before,
                            self.restitution_constraints@,
                            ncontacts as int,
                            dt,
                            constraints@,
                            jl,
                            p2 as int,
                            bodies0,
                            bis@,
                            fixeds@,
                            jc,
                        );
                        let m1 = spec_anchor_world_iso(fixeds@[id as int].anchor1, bodies0);
                        let m2 = spec_anchor_world_iso(fixeds@[id as int].anchor2, bodies0);
                        assert(a1.tr == v2_of(m1.1));
                        assert(a2.tr == v2_of(m2.1));
                        assert(s1 == spec_joint_side(opt_body(fixeds@[id as int].anchor1.body, bodies0), a1.tr));
                        assert(s2 == spec_joint_side(opt_body(fixeds@[id as int].anchor2.body, bodies0), a2.tr));
                        assert(err as int == spec_ang_err(m1.0, m2.0));
                        let off = ncontacts as int + joint_rows_len(constraints@, jl, p2 as int);
                        assert(self.restitution_constraints@[off] == rowx);
                        assert(self.restitution_constraints@[off + 1] == rowy);
                        assert(self.restitution_constraints@[off + 2] == rowa);
                        assert(joint_rows_ok(
                            self.restitution_constraints@,
                            ncontacts as int,
                            dt,
                            constraints@,
                            jl,
                            p2 + 1,
                            bodies0,
                            bis@,
                            fixeds@,
                            jc,
                        ));
                    }
                },
                Constraint::RBRB(_, _, _) => {
                    proof {
                        assert(false);
                    }
                },
            }
            p2 += 1;
        }
        // second-order resolution
        resize_buffer(&mut self.mj_lambda, ndense, Velocities::new());
        let n2 = self.num_second_order_iter;
        let ghost rows_a = self.restitution_constraints@;
        let ghost fric_a = self.friction_constraints@;
        proof {
            assert(contact_rows_ok(rows_a, fric_a, dt, constraints@, cache0, bodies0, old(self).correction));
        }
        projected_gauss_seidel_solve(
            &mut self.restitution_constraints,
            &mut self.friction_constraints,
            &mut self.mj_lambda,
            ndense,
            n2,
        );
        let ghost solved_r = self.restitution_constraints@;
        let ghost solved_f = self.friction_constraints@;
        let ghost mjv = self.mj_lambda@;
        proof {
            assert forall|q3: int|
                0 <= q3 < self.restitution_constraints@.len() implies (
            #[trigger] self.restitution_constraints@[q3]).id1 < ndense as int
                && self.restitution_constraints@[q3].id2 < ndense as int by {
                assert(self.restitution_constraints@[q3] == rows_a[q3].with_impulse(
                    self.restitution_constraints@[q3].impulse,
                ));
            }
        }
        // apply the velocity deltas
        let mut q: usize = 0;
        while q < ndense
            invariant
                bodies@.len() == nbodies,
                nbodies == bodies0.len(),
                ndense == dense@.len(),
                self.mj_lambda@ == mjv,
                self.mj_lambda@.len() == ndense,
                q <= ndense,
                forall|k2: int|
                    0 <= k2 < dense@.len() ==> (#[trigger] dense@[k2]) < nbodies,
                forall|k1: int, k2: int|
                    0 <= k1 < k2 < dense@.len() ==> dense@[k1] != dense@[k2],
                forall|h: int|
                    0 <= h < nbodies as int && (forall|k2: int|
                        0 <= k2 < dense@.len() ==> (#[trigger] dense@[k2]) as int != h)
                        ==> bodies@[h] == bodies0[h],
                forall|h: int|
                    0 <= h < nbodies as int ==> #[trigger] bodies@[h] == (RigidBody {
                        lin_vel: bodies@[h].lin_vel,
                        ang_vel: bodies@[h].ang_vel,
                        ..bodies0[h]
                    }),
                forall|j: int| q <= j < ndense ==> #[trigger] bodies@[dense@[j] as int]
                    == bodies0[dense@[j] as int],
                forall|j: int|
                    0 <= j < q ==> (#[trigger] bodies@[dense@[j] as int]).lin_vel == v2_of(
                        sv2_add(bodies0[dense@[j] as int].lin_vel@, mjv[j].lv@),
                    ) && bodies@[dense@[j] as int].ang_vel as int == sfadd(
                        bodies0[dense@[j] as int].ang_vel as int,
                        mjv[j].av as int,
                    ),
            decreases ndense - q,
        {
            let h = dense[q];
            let mut b = bodies[h];
            b.lin_vel = v2_add(&b.lin_vel, &self.mj_lambda[q].lv);
            b.ang_vel = crate::fx::fadd(b.ang_vel, self.mj_lambda[q].av);
            bodies.set(h, b);
            q += 1;
        }
        let ghost bodies_v = bodies@;
        // store damped impulses for the next warm start
        let mut imps: Vec<(Fx, Fx)> = Vec::new();
        let mut w: usize = 0;
        while w < ncontacts
            invariant
                w <= ncontacts,
                imps@.len() == w,
                self.restitution_constraints@ == solved_r,
                self.friction_constraints@ == solved_f,
                self.restitution_constraints@.len() >= ncontacts,
                self.friction_constraints@.len() == ncontacts,
                forall|j: int|
                    0 <= j < w ==> #[trigger] imps@[j] == (
                        (sfmul(WARM_START_DAMPING as int, solved_r[j].impulse as int) as i64),
                        (sfmul(WARM_START_DAMPING as int, solved_f[j].impulse as int) as i64),
                    ),
            decreases ncontacts - w,
        {
            imps.push(
                (
                    fmul(WARM_START_DAMPING, self.restitution_constraints[w].impulse),
                    fmul(WARM_START_DAMPING, self.friction_constraints[w].impulse),
                ),
            );
            w += 1;
        }
        self.cache.commit_and_swap(&imps);
        let ghost cache1 = self.cache;
        // first-order resolution
        let pos_corr = self.correction.corr_mode.pos_corr_factor();
        let min_depth = self.correction.corr_mode.min_depth_for_pos_corr();
        let mut needs_correction = false;
        let mut nc2: usize = 0;
        while nc2 < constraints.len()
            invariant
                nc2 <= constraints@.len(),
                min_depth == old(self).correction.corr_mode.spec_min_depth_for_pos_corr(),
                needs_correction ==> exists|j2: int|
                    0 <= j2 < nc2 && (#[trigger] constraints@[j2] matches Constraint::RBRB(
                        _,
                        _,
                        ct,
                    ) && ct.depth
                        >= old(self).correction.corr_mode.spec_min_depth_for_pos_corr()),
                (exists|j2: int|
                    0 <= j2 < nc2 && (#[trigger] constraints@[j2] matches Constraint::RBRB(
                        _,
                        _,
                        ct,
                    ) && ct.depth
                        >= old(self).correction.corr_mode.spec_min_depth_for_pos_corr()))
                    ==> needs_correction,
            decreases constraints@.len() - nc2,
        {
            let ghost needs_old = needs_correction;
            match constraints[nc2] {
                Constraint::RBRB(_, _, ct) => {
                    if ct.depth >= min_depth {
                        needs_correction = true;
                    }
                },
                _ => {},
            }
            proof {
                let md = old(self).correction.corr_mode.spec_min_depth_for_pos_corr();
                if needs_correction {
                    if needs_old {
                        let w2 = choose|j2: int|
                            0 <= j2 < nc2 && (#[trigger] constraints@[j2] matches
                            Constraint::RBRB(_, _, ct) && ct.depth >= md);
                        assert((constraints@[w2] matches Constraint::RBRB(_, _, ct) && ct.depth
                            >= md));
                    } else {
                        assert((constraints@[nc2 as int] matches Constraint::RBRB(_, _, ct)
                            && ct.depth >= md));
                    }
                }
                if exists|j2: int|
                    0 <= j2 < nc2 + 1 && (#[trigger] constraints@[j2] matches Constraint::RBRB(
                        _,
                        _,
                        ct,
                    ) && ct.depth >= md) {
                    let w2 = choose|j2: int|
                        0 <= j2 < nc2 + 1 && (#[trigger] constraints@[j2] matches
                        Constraint::RBRB(_, _, ct) && ct.depth >= md);
                    if w2 < nc2 {
                        assert(needs_correction);
                    } else {
                        assert(w2 == nc2 as int);
                        assert(needs_correction);
                    }
                }
            }
            nc2 += 1;
        }
        let ghost bodies_mid = bodies@;
        if pos_corr > 0 && needs_correction {
            proof {
                assert(spec_needs_correction(constraints@, old(self).correction));
            }
            self.resize_buffers(ncontacts, 0);
            let mut k2: usize = 0;
            while k2 < ncontacts
                invariant
                    k2 <= ncontacts,
                    self.restitution_constraints@.len() == ncontacts,
                    self.friction_constraints@.len() == 0,
                    depths@.len() == ncontacts,
                    ndense == dense@.len(),
                    self.correction == old(self).correction,
                    forall|q2: int|
                        0 <= q2 < ncontacts ==> #[trigger] depths@[q2] == spec_depth_of(
                            constraints@,
                            cache0,
                            q2,
                        ),
                    forall|q2: int|
                        k2 <= q2 < ncontacts ==> #[trigger] self.restitution_constraints@[q2]
                            == solved_r[q2],
                    forall|q2: int|
                        0 <= q2 < k2 ==> first_order_row_ok(
                            #[trigger] self.restitution_constraints@[q2],
                            solved_r[q2],
                            dt,
                            spec_depth_of(constraints@, cache0, q2),
                            old(self).correction,
                        ),
                    forall|q2: int|
                        0 <= q2 < ncontacts ==> (#[trigger] self.restitution_constraints@[q2]).id1
                            < ndense as int && self.restitution_constraints@[q2].id2
                            < ndense as int,
                    self.mj_lambda@.len() == ndense,
                    self.cache == cache1,
                    self.num_first_order_iter == old(self).num_first_order_iter,
                    self.num_second_order_iter == old(self).num_second_order_iter,
                decreases ncontacts - k2,
            {
                let mut row = self.restitution_constraints[k2];
                proof {
                    assert(solved_r[k2 as int].id1 < ndense as int);
                }
                reinit_to_first_order_equation(dt, depths[k2], &mut row, &self.correction);
                self.restitution_constraints.set(k2, row);
                k2 += 1;
            }
            let ghost rows1 = self.restitution_constraints@;
            proof {
                assert(self.friction_constraints@ =~= Seq::<VelocityConstraint>::empty());
            }
            let n1 = self.num_first_order_iter;
            projected_gauss_seidel_solve(
                &mut self.restitution_constraints,
                &mut self.friction_constraints,
                &mut self.mj_lambda,
                ndense,
                n1,
            );
            let ghost mj2 = self.mj_lambda@;
            proof {
                assert(mj2 == spec_pgs(
                    rows1,
                    Seq::<VelocityConstraint>::empty(),
                    spec_warm_started(rows1, Seq::<VelocityConstraint>::empty(), ndense as int),
                    n1 as int,
                ).2);
            }
            // integrate the pseudo-velocities into transform deltas
            let mut q2: usize = 0;
            while q2 < ndense
                invariant
                    bodies@.len() == nbodies,
                    nbodies == bodies_mid.len(),
                    nbodies == bodies0.len(),
                    ndense == dense@.len(),
                    self.mj_lambda@ == mj2,
                    self.mj_lambda@.len() == ndense,
                    q2 <= ndense,
                    forall|k3: int|
                        0 <= k3 < dense@.len() ==> (#[trigger] dense@[k3]) < nbodies,
                    forall|k1: int, k3: int|
                        0 <= k1 < k3 < dense@.len() ==> dense@[k1] != dense@[k3],
                    forall|h: int|
                        0 <= h < nbodies as int && (forall|k3: int|
                            0 <= k3 < dense@.len() ==> (#[trigger] dense@[k3]) as int != h)
                            ==> bodies@[h] == bodies_mid[h],
                    forall|h: int|
                        0 <= h < nbodies as int ==> (#[trigger] bodies_mid[h]).position
                            == bodies0[h].position && bodies_mid[h].local_com == bodies0[
                            h
                        ].local_com,
                    forall|j: int|
                        q2 <= j < ndense ==> #[trigger] bodies@[dense@[j] as int] == bodies_mid[
                            dense@[j] as int
                        ],
                    forall|j: int|
                        0 <= j < q2 ==> #[trigger] bodies@[dense@[j] as int] == (RigidBody {
                            position: bodies@[dense@[j] as int].position,
                            ..bodies_mid[dense@[j] as int]
                        }) && bodies@[dense@[j] as int].position@ == siso_compose(
                            spec_pos_delta(
                                mj2[j],
                                dt,
                                bodies0[dense@[j] as int].spec_center_of_mass(),
                            ),
                            bodies0[dense@[j] as int].position@,
                        ),
                decreases ndense - q2,
            {
                let h = dense[q2];
                let translation = v2_scale(&self.mj_lambda[q2].lv, dt);
                let rotation = fmul(self.mj_lambda[q2].av, dt);
                let com = bodies[h].center_of_mass();
                proof {
                    assert(bodies@[h as int] == bodies_mid[h as int]);
                    assert(bodies_mid[h as int].spec_center_of_mass() == bodies0[
                        h as int
                    ].spec_center_of_mass());
                }
                let delta = iso_append_translation(
                    &iso_append_rotation_wrt_point(
                        &Iso2::identity(),
                        &Rot2::from_small_angle(rotation),
                        &com,
                    ),
                    &translation,
                );
                proof {
                    assert(delta@ == spec_pos_delta(
                        mj2[q2 as int],
                        dt,
                        bodies0[h as int].spec_center_of_mass(),
                    ));
                }
                let mut b = bodies[h];
                b.append_transformation(&delta);
                bodies.set(h, b);
                q2 += 1;
            }
        }
        proof {
            let corr = old(self).correction;
            let solved = spec_pgs(
                rows_a,
                fric_a,
                spec_warm_started(rows_a, fric_a, ndense as int),
                old(self).num_second_order_iter as int,
            );
            assert(solved.0 == solved_r && solved.1 == solved_f && solved.2 == mjv);
            assert forall|k3: int|
                0 <= k3 < dense@.len() implies (#[trigger] bodies@[dense@[k3] as int]).lin_vel
                == v2_of(sv2_add(bodies0[dense@[k3] as int].lin_vel@, solved.2[k3].lv@))
                && bodies@[dense@[k3] as int].ang_vel as int == sfadd(
                bodies0[dense@[k3] as int].ang_vel as int,
                solved.2[k3].av as int,
            ) by {
                assert(bodies_v[dense@[k3] as int].lin_vel == v2_of(
                    sv2_add(bodies0[dense@[k3] as int].lin_vel@, mjv[k3].lv@),
                ));
            }
            assert(self.cache.prev_imps@ == imps@);
            assert(contact_rows_ok(rows_a, fric_a, dt, constraints@, cache0, bodies0, corr));
        }
        Ghost((rows_a, fric_a))
    }

    /// Solve the given constraints over one step of `dt`.
    ///
    /// With no constraints this is a no-op and the impulse cache keeps its
    /// generation. Otherwise the contacts are fingerprinted into the
    /// cache, bodies get dense indices, the full pipeline runs, and the
    /// cache generations rotate.
    #[verifier::rlimit(100)]
    #[verifier::spinoff_prover]
    pub fn solve(
        &mut self,
        dt: Fx,
        constraints: &Vec<Constraint>,
        bodies: &mut Vec<RigidBody>,
        bis: &Vec<BallInSocket>,
        fixeds: &Vec<Fixed>,
    )
        requires
            old(self).wf(),
            constraints_ok(constraints@, bis@, fixeds@, old(bodies)@.len() as int),
            arenas_ok(bis@, fixeds@, old(bodies)@.len() as int),
            old(bodies)@.len() <= i64::MAX as int,
            constraints@.len() < 0x1fff_ffff_ffff_ffff,
            4 * constraints@.len() + 3 < usize::MAX as int,
            forall|i: int|
                0 <= i < old(bodies)@.len() ==> !((#[trigger] old(bodies)@[i]).state is Deleted),
        ensures
            final(self).wf(),
            final(bodies)@.len() == old(bodies)@.len(),
            final(self).correction == old(self).correction,
            final(self).num_first_order_iter == old(self).num_first_order_iter,
            final(self).num_second_order_iter == old(self).num_second_order_iter,
            final(self).cache.cell == old(self).cache.cell,
            // a tick without constraints changes nothing at all
            constraints@.len() == 0 ==> final(bodies)@ == old(bodies)@ && *final(self) == *old(self),
            // only dynamic state and the transient index ever change
            forall|h: int|
                0 <= h < old(bodies)@.len() ==> #[trigger] final(bodies)@[h] == (RigidBody {
                    lin_vel: final(bodies)@[h].lin_vel,
                    ang_vel: final(bodies)@[h].ang_vel,
                    position: final(bodies)@[h].position,
                    index: final(bodies)@[h].index,
                    ..old(bodies)@[h]
                }),
            // a body no constraint mentions is untouched
            forall|h: int|
                0 <= h < old(bodies)@.len() && !body_referenced(constraints@, bis@, fixeds@, h)
                    ==> #[trigger] final(bodies)@[h] == old(bodies)@[h],
            // an immovable body only has its index parked at -1
            forall|h: int|
                0 <= h < old(bodies)@.len() && body_referenced(constraints@, bis@, fixeds@, h)
                    && !old(bodies)@[h].movable ==> #[trigger] final(bodies)@[h] == (RigidBody {
                    index: -1i64,
                    ..old(bodies)@[h]
                }),
            // every movable referenced body got a dense index below twice
            // the constraint count
            forall|h: int|
                0 <= h < old(bodies)@.len() && body_referenced(constraints@, bis@, fixeds@, h)
                    && old(bodies)@[h].movable ==> 0 <= (#[trigger] final(bodies)@[h]).index
                    < 2 * constraints@.len(),
            // no body is ever Deleted
            forall|h: int|
                0 <= h < old(bodies)@.len() ==> !((#[trigger] final(bodies)@[h]).state
                    is Deleted),
            // every contact stays fingerprinted in the cache for the next
            // tick's warm start
            constraints@.len() > 0 ==> forall|i: int|
                0 <= i < constraints@.len() ==> ((#[trigger] constraints@[i]) matches
                Constraint::RBRB(a, b, ct) ==> has_cache_key(
                    final(self).cache.prev_keys@,
                    rbrb_fingerprint(a, b, ct, old(self).cache.cell),
                )),
            // the solving itself, at the public boundary: over the entry
            // bodies carrying their final dense indices, there stand rows
            // holding exactly the listed joints (and one restitution and
            // one friction row per fingerprinted contact, pinned one call
            // down) whose projected Gauss-Seidel fold this call applied:
            // every dense body's velocities gain its accumulated delta and
            // the damped solved impulses become the next warm-start
            // generation
            constraints@.len() > 0 ==> exists|
                dense: Seq<usize>,
                rest0: Seq<VelocityConstraint>,
                fric0: Seq<VelocityConstraint>,
                basis: Seq<RigidBody>,
            |
                #![trigger spec_warm_started(rest0, fric0, dense.len() as int), basis.len()]
                {
                    &&& basis.len() == old(bodies)@.len()
                    &&& (forall|h: int|
                        0 <= h < basis.len() ==> #[trigger] basis[h] == (RigidBody {
                            index: final(bodies)@[h].index,
                            ..old(bodies)@[h]
                        }))
                    &&& (forall|k: int|
                        0 <= k < dense.len() ==> (#[trigger] dense[k]) < old(bodies)@.len()
                            && final(bodies)@[dense[k] as int].index == k)
                    &&& (forall|h: int|
                        0 <= h < old(bodies)@.len() && body_referenced(
                            constraints@,
                            bis@,
                            fixeds@,
                            h,
                        ) && old(bodies)@[h].movable ==> 0 <= (#[trigger] final(bodies)@[h]).index
                            < dense.len() && dense[final(bodies)@[h].index as int] == h)
                    &&& rest0.len() == fric0.len() + joint_rows_len(
                        constraints@,
                        spec_joint_list(constraints@, constraints@.len() as int),
                        spec_joint_list(constraints@, constraints@.len() as int).len() as int,
                    )
                    &&& joint_rows_ok(
                        rest0,
                        fric0.len() as int,
                        dt,
                        constraints@,
                        spec_joint_list(constraints@, constraints@.len() as int),
                        spec_joint_list(constraints@, constraints@.len() as int).len() as int,
                        basis,
                        bis@,
                        fixeds@,
                        old(self).correction.joint_corr,
                    )
                    &&& ({
                        let solved = spec_pgs(
                            rest0,
                            fric0,
                            spec_warm_started(rest0, fric0, dense.len() as int),
                            old(self).num_second_order_iter as int,
                        );
                        &&& (forall|k: int|
                            0 <= k < dense.len() ==> (#[trigger] final(bodies)@[dense[k] as int]).lin_vel == v2_of(
                                sv2_add(basis[dense[k] as int].lin_vel@, solved.2[k].lv@),
                            ) && final(bodies)@[dense[k] as int].ang_vel as int == sfadd(
                                basis[dense[k] as int].ang_vel as int,
                                solved.2[k].av as int,
                            ))
                        &&& final(self).cache.prev_imps@.len() == fric0.len()
                        &&& (forall|k: int|
                            0 <= k < fric0.len() ==> #[trigger] final(self).cache.prev_imps@[k] == (
                                (sfmul(
                                    WARM_START_DAMPING as int,
                                    solved.0[k].impulse as int,
                                ) as i64),
                                (sfmul(
                                    WARM_START_DAMPING as int,
                                    solved.1[k].impulse as int,
                                ) as i64),
                            ))
                    })
                },
    {
        if constraints.len() == 0 {
            return ;
        }
        let ghost bodies_in = bodies@;
        // associate the constraints with the cached impulses
        let mut i: usize = 0;
        while i < constraints.len()
            invariant
                i <= constraints@.len(),
                self.cache.wf(),
                self.cache.cell == old(self).cache.cell,
                self.cache.cell > 0,
                self.cache.keys@.len() <= i,
                forall|k: int|
                    0 <= k < self.cache.cis@.len() ==> (#[trigger] self.cache.cis@[k])
                        < constraints@.len() && constraints@[self.cache.cis@[k] as int] is RBRB,
                forall|j: int|
                    0 <= j < i ==> ((#[trigger] constraints@[j]) matches Constraint::RBRB(
                        a,
                        b,
                        ct,
                    ) ==> has_cache_key(
                        self.cache.keys@,
                        rbrb_fingerprint(a, b, ct, old(self).cache.cell),
                    )),
                *self == (AccumulatedImpulseSolver { cache: self.cache, ..*old(self) }),
                bodies@ == bodies_in,
            decreases constraints@.len() - i,
        {
            let c = constraints[i];
            let ghost keys_prev = self.cache.keys@;
            match c {
                Constraint::RBRB(a, b, ct) => {
                    let mid = v2_scale(&v2_add(&ct.world1, &ct.world2), FX_HALF);
                    self.cache.insert(i, a as u64, b as u64, mid.x, mid.y);
                    proof {
                        let fp = rbrb_fingerprint(a, b, ct, old(self).cache.cell);
                        assert(mid.x as int == sv2_scale(
                            sv2_add(ct.world1@, ct.world2@),
                            FX_HALF as int,
                        ).0);
                        if has_cache_key(keys_prev, fp) {
                            assert(self.cache.keys@ == keys_prev);
                        } else {
                            assert(self.cache.keys@ == keys_prev.push(fp));
                            assert(self.cache.keys@[keys_prev.len() as int] == fp);
                        }
                        assert(has_cache_key(self.cache.keys@, fp));
                    }
                },
                _ => {},
            }
            proof {
                assert forall|j: int|
                    0 <= j < i + 1 implies ((#[trigger] constraints@[j]) matches Constraint::RBRB(
                    a,
                    b,
                    ct,
                ) ==> has_cache_key(
                    self.cache.keys@,
                    rbrb_fingerprint(a, b, ct, old(self).cache.cell),
                )) by {
                    if j < i {
                        match constraints@[j] {
                            Constraint::RBRB(a, b, ct) => {
                                let fp = rbrb_fingerprint(a, b, ct, old(self).cache.cell);
                                if self.cache.keys@ != keys_prev {
                                    let wdx = choose|wdx: int|
                                        0 <= wdx < keys_prev.len() && keys_prev[wdx] == fp;
                                    assert(self.cache.keys@[wdx] == fp);
                                }
                            },
                            _ => {},
                        }
                    }
                }
            }
            i += 1;
        }
        // assign an index to each body
        let r = assign_body_indices(constraints, bodies, bis, fixeds);
        let dense = r.0;
        let jlist = r.1;
        let ghost keys_full = self.cache.keys@;
        proof {
            assert forall|h: int|
                0 <= h < bodies@.len() && body_referenced(
                    constraints@,
                    bis@,
                    fixeds@,
                    h,
                ) implies -1 <= (#[trigger] bodies@[h]).index < dense@.len() by {
                if bodies_in[h].movable {
                } else {
                }
            }
        }
        proof {
            assert(self.cache.keys@.len() <= constraints@.len());
            assert(jlist@.len() <= constraints@.len());
            assert(self.cache.keys@.len() + 3 * jlist@.len() + 3 < usize::MAX as int);
        }
        let ghost bodies_ix = bodies@;
        let ghost assoc = self.cache;
        let rows = self.do_solve(dt, constraints, &jlist, &dense, bodies, bis, fixeds);
        proof {
            assert(self.cache.prev_keys@ == keys_full);
            // surface the solving: the rows do_solve assembled stand over
            // the entry bodies with their final dense indices
            let basis = bodies_ix;
            let rest0 = rows@.0;
            let fric0 = rows@.1;
            let jl = spec_joint_list(constraints@, constraints@.len() as int);
            assert(jlist@ == jl);
            assert(fric0.len() == assoc.keys@.len());
            assert(basis.len() == old(bodies)@.len());
            assert forall|h: int|
                0 <= h < basis.len() implies #[trigger] basis[h] == (RigidBody {
                index: bodies@[h].index,
                ..old(bodies)@[h]
            }) by {
                assert(bodies_ix[h] == (RigidBody { index: bodies_ix[h].index, ..old(bodies)@[h] }));
                assert(bodies@[h] == (RigidBody {
                    lin_vel: bodies@[h].lin_vel,
                    ang_vel: bodies@[h].ang_vel,
                    position: bodies@[h].position,
                    ..bodies_ix[h]
                }));
            }
            assert(rest0.len() == fric0.len() + joint_rows_len(constraints@, jl, jl.len() as int));
            assert(joint_rows_ok(
                rest0,
                fric0.len() as int,
                dt,
                constraints@,
                jl,
                jl.len() as int,
                basis,
                bis@,
                fixeds@,
                old(self).correction.joint_corr,
            ));
            assert forall|k: int|
                0 <= k < dense@.len() implies (#[trigger] dense@[k]) < old(bodies)@.len()
                && bodies@[dense@[k] as int].index == k by {
                assert(bodies_ix[dense@[k] as int].index == k as int);
                assert(bodies@[dense@[k] as int] == (RigidBody {
                    lin_vel: bodies@[dense@[k] as int].lin_vel,
                    ang_vel: bodies@[dense@[k] as int].ang_vel,
                    position: bodies@[dense@[k] as int].position,
                    ..bodies_ix[dense@[k] as int]
                }));
            }
            let solved = spec_pgs(
                rest0,
                fric0,
                spec_warm_started(rest0, fric0, dense@.len() as int),
                old(self).num_second_order_iter as int,
            );
            assert(self.cache.prev_imps@.len() == fric0.len());
        }
    }
}

}
