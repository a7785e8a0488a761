//! The projected Gauss-Seidel solver over velocity constraint rows.
//!
//! Each sweep visits every row in order, computes the impulse change that
//! would satisfy the row against the accumulated velocity deltas, clamps
//! the accumulated impulse into its bounds, and applies the clamped change
//! to the per-body delta accumulators. Friction rows have their bounds
//! refreshed from their restitution row's impulse each sweep, which
//! enforces the friction cone. Warm-start impulses are applied before the
//! first sweep.

use vstd::prelude::*;
use crate::fx::{Fx, fadd, fsub, fneg, fmul, fclamp, sfadd, sfsub, sfneg, sfmul, sfclamp};
use crate::alg::{V2, v2_add, v2_sub, v2_scale, v2_dot, sv2_add, sv2_sub, sv2_scale, sv2_dot};
use crate::velocity_constraint::VelocityConstraint;

verus! {

/// The accumulated velocity delta of one dense body.
#[derive(Clone, Copy, PartialEq, Eq, Structural, Debug)]
pub struct Velocities {
    /// Linear velocity delta.
    pub lv: V2,
    /// Angular velocity delta.
    pub av: Fx,
}

impl Velocities {
    /// The zero delta.
    pub fn new() -> (r: Velocities)
        ensures
            r == Velocities::spec_zero(),
    {
        Velocities { lv: V2 { x: 0, y: 0 }, av: 0 }
    }

    /// The zero delta.
    pub open spec fn spec_zero() -> Velocities {
        Velocities { lv: V2 { x: 0, y: 0 }, av: 0 }
    }
}

/// Every row's body indices lie below `n` (negative means inert).
pub open spec fn rows_wf(rows: Seq<VelocityConstraint>, n: int) -> bool {
    forall|i: int|
        0 <= i < rows.len() ==> (#[trigger] rows[i]).id1 < n && rows[i].id2 < n
}

/// Some row involves body `b`.
pub open spec fn references(rows: Seq<VelocityConstraint>, b: int) -> bool {
    exists|i: int|
        0 <= i < rows.len() && ((#[trigger] rows[i]).id1 == b || rows[i].id2 == b)
}

/// The row's constraint velocity under the accumulated deltas.
pub open spec fn spec_jv(c: VelocityConstraint, mj: Seq<Velocities>) -> int {
    let t1 = if 0 <= c.id1 < mj.len() {
        sfadd(
            sv2_dot(c.normal@, mj[c.id1 as int].lv@),
            sfmul(c.rot_axis1 as int, mj[c.id1 as int].av as int),
        )
    } else {
        0
    };
    let t2 = if 0 <= c.id2 < mj.len() {
        sfadd(
            sv2_dot(c.normal@, mj[c.id2 as int].lv@),
            sfmul(c.rot_axis2 as int, mj[c.id2 as int].av as int),
        )
    } else {
        0
    };
    sfsub(t2, t1)
}

/// The clamped accumulated impulse after one visit of the row.
pub open spec fn spec_new_impulse(c: VelocityConstraint, mj: Seq<Velocities>) -> int {
    sfclamp(
        sfadd(
            c.impulse as int,
            sfmul(c.inv_projected_mass as int, sfsub(c.objective as int, spec_jv(c, mj))),
        ),
        c.lobound as int,
        c.hibound as int,
    )
}

/// One body's accumulated delta after an impulse change `d` is applied
/// on the first (subtracted) side of a row.
pub open spec fn spec_apply_side1(v: Velocities, c: VelocityConstraint, d: int) -> Velocities {
    Velocities {
        lv: V2 {
            x: sfsub(v.lv.x as int, sfmul(c.weighted_normal1.x as int, d)) as i64,
            y: sfsub(v.lv.y as int, sfmul(c.weighted_normal1.y as int, d)) as i64,
        },
        av: sfsub(v.av as int, sfmul(c.weighted_rot_axis1 as int, d)) as i64,
    }
}

/// One body's accumulated delta after an impulse change `d` is applied
/// on the second (added) side of a row.
pub open spec fn spec_apply_side2(v: Velocities, c: VelocityConstraint, d: int) -> Velocities {
    Velocities {
        lv: V2 {
            x: sfadd(v.lv.x as int, sfmul(c.weighted_normal2.x as int, d)) as i64,
            y: sfadd(v.lv.y as int, sfmul(c.weighted_normal2.y as int, d)) as i64,
        },
        av: sfadd(v.av as int, sfmul(c.weighted_rot_axis2 as int, d)) as i64,
    }
}

/// The accumulators after an impulse change `d` along a row: subtracted on
/// the first body's side, then added on the second body's.
pub open spec fn spec_apply(mj: Seq<Velocities>, c: VelocityConstraint, d: int) -> Seq<
    Velocities,
> {
    let m1 = if 0 <= c.id1 < mj.len() {
        mj.update(c.id1 as int, spec_apply_side1(mj[c.id1 as int], c, d))
    } else {
        mj
    };
    if 0 <= c.id2 < m1.len() {
        m1.update(c.id2 as int, spec_apply_side2(m1[c.id2 as int], c, d))
    } else {
        m1
    }
}

/// One visit of a row: the impulse clamps toward the objective and the
/// change lands in the accumulators.
pub open spec fn spec_solve_row(c: VelocityConstraint, mj: Seq<Velocities>) -> (
    VelocityConstraint,
    Seq<Velocities>,
) {
    let ni = spec_new_impulse(c, mj);
    (c.with_impulse(ni as i64), spec_apply(mj, c, sfsub(ni, c.impulse as int)))
}

/// The accumulators after the stored impulses of the first `k` rows are
/// applied as warm start.
pub open spec fn spec_warm(rows: Seq<VelocityConstraint>, mj: Seq<Velocities>, k: int) -> Seq<
    Velocities,
>
    decreases k,
{
    if k <= 0 {
        mj
    } else {
        spec_apply(spec_warm(rows, mj, k - 1), rows[k - 1], rows[k - 1].impulse as int)
    }
}

/// The warm-started accumulators of a solve: zero deltas, then every
/// restitution and friction row's stored impulse applied in order.
pub open spec fn spec_warm_started(
    rest: Seq<VelocityConstraint>,
    fric: Seq<VelocityConstraint>,
    n: int,
) -> Seq<Velocities> {
    spec_warm(
        fric,
        spec_warm(rest, Seq::new(n as nat, |i: int| Velocities::spec_zero()), rest.len() as int),
        fric.len() as int,
    )
}

/// Rows and accumulators after the first `k` rows of one restitution
/// sweep are visited in order.
pub open spec fn spec_rest_sweep(
    rows: Seq<VelocityConstraint>,
    mj: Seq<Velocities>,
    k: int,
) -> (Seq<VelocityConstraint>, Seq<Velocities>)
    decreases k,
{
    if k <= 0 {
        (rows, mj)
    } else {
        let prev = spec_rest_sweep(rows, mj, k - 1);
        let r = spec_solve_row(prev.0[k - 1], prev.1);
        (prev.0.update(k - 1, r.0), r.1)
    }
}

/// One friction row's visit: its bounds are refreshed to the friction
/// cone of its restitution row, then it is solved.
pub open spec fn spec_fric_row(
    c: VelocityConstraint,
    rest: Seq<VelocityConstraint>,
    mj: Seq<Velocities>,
) -> (VelocityConstraint, Seq<Velocities>) {
    let lim = sfmul(c.friction_coeff as int, rest[c.friction_limit_id as int].impulse as int);
    spec_solve_row(
        VelocityConstraint { lobound: sfneg(lim) as i64, hibound: lim as i64, ..c },
        mj,
    )
}

/// Rows and accumulators after the first `k` friction rows of one sweep
/// are visited in order.
pub open spec fn spec_fric_sweep(
    fric: Seq<VelocityConstraint>,
    rest: Seq<VelocityConstraint>,
    mj: Seq<Velocities>,
    k: int,
) -> (Seq<VelocityConstraint>, Seq<Velocities>)
    decreases k,
{
    if k <= 0 {
        (fric, mj)
    } else {
        let prev = spec_fric_sweep(fric, rest, mj, k - 1);
        let r = spec_fric_row(prev.0[k - 1], rest, prev.1);
        (prev.0.update(k - 1, r.0), r.1)
    }
}

/// The whole solver state after `iters` sweeps: each sweep solves every
/// restitution (and joint) row in order, then every friction row.
pub open spec fn spec_pgs(
    rest: Seq<VelocityConstraint>,
    fric: Seq<VelocityConstraint>,
    mj: Seq<Velocities>,
    iters: int,
) -> (Seq<VelocityConstraint>, Seq<VelocityConstraint>, Seq<Velocities>)
    decreases iters,
{
    if iters <= 0 {
        (rest, fric, mj)
    } else {
        let p = spec_pgs(rest, fric, mj, iters - 1);
        let a = spec_rest_sweep(p.0, p.2, p.0.len() as int);
        let b = spec_fric_sweep(p.1, a.0, a.1, p.1.len() as int);
        (a.0, b.0, b.1)
    }
}

/// Apply the impulse change `d` along the row's mass-weighted jacobian to
/// the accumulated deltas: subtracted on the first body's side, added on
/// the second.
pub fn apply_delta(c: &VelocityConstraint, d: Fx, mj: &mut Vec<Velocities>)
    requires
        c.id1 < old(mj)@.len(),
        c.id2 < old(mj)@.len(),
    ensures
        final(mj)@ == spec_apply(old(mj)@, *c, d as int),
        final(mj)@.len() == old(mj)@.len(),
        forall|b: int|
            0 <= b < old(mj)@.len() && b != c.id1 as int && b != c.id2 as int ==> final(mj)@[b] == old(mj)@[b],
        c.id1 >= 0 && c.id1 != c.id2 ==> (final(mj)@[c.id1 as int].lv@ == sv2_sub(
            old(mj)@[c.id1 as int].lv@,
            sv2_scale(c.weighted_normal1@, d as int),
        ) && final(mj)@[c.id1 as int].av as int == sfsub(
            old(mj)@[c.id1 as int].av as int,
            sfmul(c.weighted_rot_axis1 as int, d as int),
        )),
        c.id2 >= 0 && c.id1 != c.id2 ==> (final(mj)@[c.id2 as int].lv@ == sv2_add(
            old(mj)@[c.id2 as int].lv@,
            sv2_scale(c.weighted_normal2@, d as int),
        ) && final(mj)@[c.id2 as int].av as int == sfadd(
            old(mj)@[c.id2 as int].av as int,
            sfmul(c.weighted_rot_axis2 as int, d as int),
        )),
        c.id1 >= 0 && c.id1 == c.id2 ==> (final(mj)@[c.id1 as int].lv@ == sv2_add(
            sv2_sub(old(mj)@[c.id1 as int].lv@, sv2_scale(c.weighted_normal1@, d as int)),
            sv2_scale(c.weighted_normal2@, d as int),
        ) && final(mj)@[c.id1 as int].av as int == sfadd(
            sfsub(
                old(mj)@[c.id1 as int].av as int,
                sfmul(c.weighted_rot_axis1 as int, d as int),
            ),
            sfmul(c.weighted_rot_axis2 as int, d as int),
        )),
{
    let n = mj.len();
    proof {
        assert(n as int == mj@.len());
    }
    if c.id1 >= 0 {
        let i = c.id1 as usize;
        let v = mj[i];
        let nv = Velocities {
            lv: v2_sub(&v.lv, &v2_scale(&c.weighted_normal1, d)),
            av: fsub(v.av, fmul(c.weighted_rot_axis1, d)),
        };
        mj.set(i, nv);
    }
    if c.id2 >= 0 {
        let i = c.id2 as usize;
        let v = mj[i];
        let nv = Velocities {
            lv: v2_add(&v.lv, &v2_scale(&c.weighted_normal2, d)),
            av: fadd(v.av, fmul(c.weighted_rot_axis2, d)),
        };
        mj.set(i, nv);
    }
    proof {
        assert(mj@ =~= spec_apply(old(mj)@, *c, d as int));
    }
}

/// Visit one row: clamp the accumulated impulse toward the objective and
/// apply the change to the delta accumulators.
pub fn solve_velocity_constraint(c: &mut VelocityConstraint, mj: &mut Vec<Velocities>)
    requires
        old(c).id1 < old(mj)@.len(),
        old(c).id2 < old(mj)@.len(),
    ensures
        *final(c) == spec_solve_row(*old(c), old(mj)@).0,
        final(mj)@ == spec_solve_row(*old(c), old(mj)@).1,
        *final(c) == old(c).with_impulse(final(c).impulse),
        final(c).impulse as int == spec_new_impulse(*old(c), old(mj)@),
        final(mj)@.len() == old(mj)@.len(),
        forall|b: int|
            0 <= b < old(mj)@.len() && b != old(c).id1 as int && b != old(c).id2 as int
                ==> final(mj)@[b] == old(mj)@[b],
        old(c).id1 >= 0 && old(c).id1 != old(c).id2 ==> (final(mj)@[old(c).id1 as int].lv@
            == sv2_sub(
            old(mj)@[old(c).id1 as int].lv@,
            sv2_scale(
                old(c).weighted_normal1@,
                sfsub(final(c).impulse as int, old(c).impulse as int),
            ),
        )),
        old(c).id2 >= 0 && old(c).id1 != old(c).id2 ==> (final(mj)@[old(c).id2 as int].lv@
            == sv2_add(
            old(mj)@[old(c).id2 as int].lv@,
            sv2_scale(
                old(c).weighted_normal2@,
                sfsub(final(c).impulse as int, old(c).impulse as int),
            ),
        )),
{
    let n = mj.len();
    proof {
        assert(n as int == mj@.len());
    }
    let jv = {
        let t1 = if c.id1 >= 0 {
            let i = c.id1 as usize;
            fadd(v2_dot(&c.normal, &mj[i].lv), fmul(c.rot_axis1, mj[i].av))
        } else {
            0
        };
        let t2 = if c.id2 >= 0 {
            let i = c.id2 as usize;
            fadd(v2_dot(&c.normal, &mj[i].lv), fmul(c.rot_axis2, mj[i].av))
        } else {
            0
        };
        fsub(t2, t1)
    };
    let d_lambda = fmul(c.inv_projected_mass, fsub(c.objective, jv));
    let new_impulse = fclamp(fadd(c.impulse, d_lambda), c.lobound, c.hibound);
    let diff = fsub(new_impulse, c.impulse);
    apply_delta(c, diff, mj);
    c.impulse = new_impulse;
}

/// Solve the given rows by `num_iter` projected Gauss-Seidel sweeps.
///
/// The delta accumulators are zeroed, the rows' warm-start impulses are
/// applied, and then each sweep solves every restitution (and joint) row
/// followed by every friction row, whose bounds are refreshed from its
/// restitution row's impulse first.
pub fn projected_gauss_seidel_solve(
    restitution: &mut Vec<VelocityConstraint>,
    friction: &mut Vec<VelocityConstraint>,
    mj_lambda: &mut Vec<Velocities>,
    num_bodies: usize,
    num_iter: usize,
)
    requires
        old(mj_lambda)@.len() == num_bodies,
        rows_wf(old(restitution)@, num_bodies as int),
        rows_wf(old(friction)@, num_bodies as int),
        forall|i: int|
            0 <= i < old(friction)@.len() ==> (#[trigger] old(friction)@[i]).friction_limit_id
                < old(restitution)@.len(),
    ensures
        // the result is exactly the fold of the warm start and
        // `num_iter` in-order sweeps
        ({
            let r = spec_pgs(
                old(restitution)@,
                old(friction)@,
                spec_warm_started(old(restitution)@, old(friction)@, num_bodies as int),
                num_iter as int,
            );
            final(restitution)@ == r.0 && final(friction)@ == r.1 && final(mj_lambda)@ == r.2
        }),
        final(mj_lambda)@.len() == num_bodies,
        final(restitution)@.len() == old(restitution)@.len(),
        final(friction)@.len() == old(friction)@.len(),
        // geometry, ids and bounds of restitution rows survive
        forall|i: int|
            0 <= i < old(restitution)@.len() ==> #[trigger] final(restitution)@[i] == old(
                restitution,
            )@[i].with_impulse(final(restitution)@[i].impulse),
        // geometry and ids of friction rows survive; bounds are refreshed
        forall|i: int|
            0 <= i < old(friction)@.len() ==> #[trigger] final(friction)@[i] == old(
                friction,
            )@[i].with_impulse_bounds(
                final(friction)@[i].impulse,
                final(friction)@[i].lobound,
                final(friction)@[i].hibound,
            ),
        // a body no row references accumulates no delta
        forall|b: int|
            0 <= b < num_bodies && !references(old(restitution)@, b) && !references(
                old(friction)@,
                b,
            ) ==> final(mj_lambda)@[b] == Velocities::spec_zero(),
        // after at least one sweep every restitution impulse sits in its
        // bounds
        num_iter >= 1 ==> forall|i: int|
            0 <= i < old(restitution)@.len() && old(restitution)@[i].lobound <= old(
                restitution,
            )@[i].hibound ==> old(restitution)@[i].lobound <= (#[trigger] final(restitution)@[i]).impulse <= old(restitution)@[i].hibound,
        // after at least one sweep every friction impulse obeys the
        // friction cone of its restitution row
        num_iter >= 1 ==> forall|i: int|
            0 <= i < old(friction)@.len() ==> {
                let lim = sfmul(
                    old(friction)@[i].friction_coeff as int,
                    final(restitution)@[old(friction)@[i].friction_limit_id as int].impulse as int,
                );
                (#[trigger] final(friction)@[i]).lobound as int == sfneg(lim) && final(friction)@[i].hibound as int == lim && (sfneg(lim) <= lim ==> sfneg(lim) <= final(friction)@[i].impulse as int <= lim)
            },
{
    let ghost rest0 = restitution@;
    let ghost fric0 = friction@;
    // zero the delta accumulators
    let mut b: usize = 0;
    while b < num_bodies
        invariant
            mj_lambda@.len() == num_bodies,
            b <= num_bodies,
            forall|j: int| 0 <= j < b ==> #[trigger] mj_lambda@[j] == Velocities::spec_zero(),
        decreases num_bodies - b,
    {
        mj_lambda.set(b, Velocities::new());
        b += 1;
    }
    let ghost zeros = Seq::new(num_bodies as nat, |i: int| Velocities::spec_zero());
    proof {
        assert(mj_lambda@ =~= zeros);
    }
    // warm start
    let mut w: usize = 0;
    while w < restitution.len()
        invariant
            restitution@ == rest0,
            friction@ == fric0,
            mj_lambda@.len() == num_bodies,
            mj_lambda@ == spec_warm(rest0, zeros, w as int),
            rows_wf(rest0, num_bodies as int),
            w <= rest0.len(),
            forall|j: int|
                0 <= j < num_bodies && !references(rest0, j) && !references(fric0, j)
                    ==> #[trigger] mj_lambda@[j] == Velocities::spec_zero(),
        decreases restitution@.len() - w,
    {
        let c = restitution[w];
        apply_delta(&c, c.impulse, mj_lambda);
        w += 1;
    }
    let ghost warm1 = spec_warm(rest0, zeros, rest0.len() as int);
    let mut w2: usize = 0;
    while w2 < friction.len()
        invariant
            restitution@ == rest0,
            friction@ == fric0,
            mj_lambda@.len() == num_bodies,
            mj_lambda@ == spec_warm(fric0, warm1, w2 as int),
            rows_wf(fric0, num_bodies as int),
            w2 <= fric0.len(),
            forall|j: int|
                0 <= j < num_bodies && !references(rest0, j) && !references(fric0, j)
                    ==> #[trigger] mj_lambda@[j] == Velocities::spec_zero(),
        decreases friction@.len() - w2,
    {
        let c = friction[w2];
        apply_delta(&c, c.impulse, mj_lambda);
        w2 += 1;
    }
    // sweeps
    let ghost mj_w = spec_warm_started(rest0, fric0, num_bodies as int);
    proof {
        assert(mj_lambda@ == mj_w);
    }
    let mut it: usize = 0;
    while it < num_iter
        invariant
            (restitution@, friction@, mj_lambda@) == spec_pgs(rest0, fric0, mj_w, it as int),
            mj_lambda@.len() == num_bodies,
            restitution@.len() == rest0.len(),
            friction@.len() == fric0.len(),
            rows_wf(rest0, num_bodies as int),
            rows_wf(fric0, num_bodies as int),
            forall|i: int|
                0 <= i < fric0.len() ==> (#[trigger] fric0[i]).friction_limit_id < rest0.len(),
            it <= num_iter,
            forall|i: int|
                0 <= i < rest0.len() ==> #[trigger] restitution@[i] == rest0[i].with_impulse(
                    restitution@[i].impulse,
                ),
            forall|i: int|
                0 <= i < fric0.len() ==> #[trigger] friction@[i] == fric0[i].with_impulse_bounds(
                    friction@[i].impulse,
                    friction@[i].lobound,
                    friction@[i].hibound,
                ),
            forall|j: int|
                0 <= j < num_bodies && !references(rest0, j) && !references(fric0, j)
                    ==> #[trigger] mj_lambda@[j] == Velocities::spec_zero(),
            it >= 1 ==> forall|i: int|
                0 <= i < rest0.len() && rest0[i].lobound <= rest0[i].hibound ==> rest0[
                    i
                ].lobound <= (#[trigger] restitution@[i]).impulse <= rest0[i].hibound,
            it >= 1 ==> forall|i: int|
                0 <= i < fric0.len() ==> {
                    let lim = sfmul(
                        fric0[i].friction_coeff as int,
                        restitution@[fric0[i].friction_limit_id as int].impulse as int,
                    );
                    (#[trigger] friction@[i]).lobound as int == sfneg(lim) && friction@[
                        i
                    ].hibound as int == lim && (sfneg(lim) <= lim ==> sfneg(lim) <= friction@[
                        i
                    ].impulse as int <= lim)
                },
        decreases num_iter - it,
    {
        let ghost rest_it = restitution@;
        let ghost fric_it = friction@;
        let ghost mj_it = mj_lambda@;
        let mut i: usize = 0;
        while i < restitution.len()
            invariant
                (restitution@, mj_lambda@) == spec_rest_sweep(rest_it, mj_it, i as int),
                friction@ == fric_it,
                mj_lambda@.len() == num_bodies,
                restitution@.len() == rest0.len(),
                friction@.len() == fric0.len(),
                rows_wf(rest0, num_bodies as int),
                rows_wf(fric0, num_bodies as int),
                forall|p: int|
                    0 <= p < fric0.len() ==> (#[trigger] fric0[p]).friction_limit_id
                        < rest0.len(),
                forall|p: int|
                    0 <= p < fric0.len() ==> #[trigger] friction@[p] == fric0[
                        p
                    ].with_impulse_bounds(
                        friction@[p].impulse,
                        friction@[p].lobound,
                        friction@[p].hibound,
                    ),
                i <= rest0.len(),
                forall|p: int|
                    0 <= p < rest0.len() ==> #[trigger] restitution@[p] == rest0[p].with_impulse(
                        restitution@[p].impulse,
                    ),
                forall|p: int|
                    0 <= p < i ==> rest0[p].lobound > rest0[p].hibound || (rest0[p].lobound <= (
                    #[trigger] restitution@[p]).impulse <= rest0[p].hibound),
                forall|j: int|
                    0 <= j < num_bodies && !references(rest0, j) && !references(fric0, j)
                        ==> #[trigger] mj_lambda@[j] == Velocities::spec_zero(),
            decreases restitution@.len() - i,
        {
            let mut c = restitution[i];
            solve_velocity_constraint(&mut c, mj_lambda);
            restitution.set(i, c);
            i += 1;
        }
        let ghost rest_cur = restitution@;
        let ghost mj_rs = mj_lambda@;
        let mut f: usize = 0;
        while f < friction.len()
            invariant
                restitution@ == rest_cur,
                (friction@, mj_lambda@) == spec_fric_sweep(fric_it, rest_cur, mj_rs, f as int),
                mj_lambda@.len() == num_bodies,
                restitution@.len() == rest0.len(),
                friction@.len() == fric0.len(),
                rows_wf(rest0, num_bodies as int),
                rows_wf(fric0, num_bodies as int),
                forall|p: int|
                    0 <= p < fric0.len() ==> (#[trigger] fric0[p]).friction_limit_id
                        < rest0.len(),
                f <= fric0.len(),
                forall|p: int|
                    0 <= p < rest0.len() ==> #[trigger] restitution@[p] == rest0[p].with_impulse(
                        restitution@[p].impulse,
                    ),
                forall|p: int|
                    0 <= p < rest0.len() ==> rest0[p].lobound > rest0[p].hibound || (rest0[
                        p
                    ].lobound <= (#[trigger] restitution@[p]).impulse <= rest0[p].hibound),
                forall|p: int|
                    0 <= p < fric0.len() ==> #[trigger] friction@[p] == fric0[
                        p
                    ].with_impulse_bounds(
                        friction@[p].impulse,
                        friction@[p].lobound,
                        friction@[p].hibound,
                    ),
                forall|p: int|
                    0 <= p < f ==> {
                        let lim = sfmul(
                            fric0[p].friction_coeff as int,
                            restitution@[fric0[p].friction_limit_id as int].impulse as int,
                        );
                        (#[trigger] friction@[p]).lobound as int == sfneg(lim) && friction@[
                            p
                        ].hibound as int == lim && (sfneg(lim) <= lim ==> sfneg(lim) <= friction@[
                            p
                        ].impulse as int <= lim)
                    },
                forall|j: int|
                    0 <= j < num_bodies && !references(rest0, j) && !references(fric0, j)
                        ==> #[trigger] mj_lambda@[j] == Velocities::spec_zero(),
            decreases friction@.len() - f,
        {
            let mut c = friction[f];
            let ghost c_before = c;
            let imp_n = restitution[c.friction_limit_id].impulse;
            let lim = fmul(c.friction_coeff, imp_n);
            c.lobound = fneg(lim);
            c.hibound = lim;
            proof {
                let sl = sfmul(
                    c_before.friction_coeff as int,
                    rest_cur[c_before.friction_limit_id as int].impulse as int,
                );
                assert(c == (VelocityConstraint {
                    lobound: sfneg(sl) as i64,
                    hibound: sl as i64,
                    ..c_before
                }));
            }
            solve_velocity_constraint(&mut c, mj_lambda);
            friction.set(f, c);
            f += 1;
        }
        proof {
            assert(spec_pgs(rest0, fric0, mj_w, it as int) == (rest_it, fric_it, mj_it));
            assert((rest_cur, mj_rs) == spec_rest_sweep(rest_it, mj_it, rest_it.len() as int));
            assert((friction@, mj_lambda@) == spec_fric_sweep(
                fric_it,
                rest_cur,
                mj_rs,
                fric_it.len() as int,
            ));
            assert((restitution@, friction@, mj_lambda@) == spec_pgs(
                rest0,
                fric0,
                mj_w,
                it + 1,
            ));
        }
        it += 1;
    }
}

}
