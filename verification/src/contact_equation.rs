//! Building velocity constraint rows from contacts.

use vstd::prelude::*;
use crate::fx::{Fx, FX_ONE, FX_MAX, fadd, fsub, fneg, fmul, fdiv, fabs, sfadd, sfsub, sfneg,
    sfmul, sfdiv, sat, spec_abs};
use crate::alg::{V2, v2_sub, v2_scale, v2_dot, v2_cross, v2_perp, sv2_sub, sv2_scale, sv2_dot,
    sv2_cross, sv2_perp, siso_apply};
use crate::body::RigidBody;
use crate::constraint::Contact;
use crate::correction::CorrectionParameters;
use crate::velocity_constraint::VelocityConstraint;

verus! {

/// The lever arm of a world point about a body's center of mass.
pub open spec fn spec_lever(p: (int, int), rb: RigidBody) -> (int, int) {
    sv2_sub(p, siso_apply(rb.position@, rb.local_com@))
}

/// The effective-mass denominator of a row along direction `n` with the
/// given angular jacobians.
pub open spec fn spec_denom(
    n: (int, int),
    im1: int,
    im2: int,
    rot1: int,
    ii1: int,
    rot2: int,
    ii2: int,
) -> int {
    sfadd(
        sfmul(sfadd(im1, im2), sv2_dot(n, n)),
        sfadd(sfmul(ii1, sfmul(rot1, rot1)), sfmul(ii2, sfmul(rot2, rot2))),
    )
}

/// The relative velocity of the two bodies along `n` with the given
/// angular jacobians: the second body's side minus the first body's.
pub open spec fn spec_rel_vel(
    n: (int, int),
    rot1: int,
    rot2: int,
    v1: (int, int),
    w1: int,
    v2: (int, int),
    w2: int,
) -> int {
    sfsub(sfadd(sv2_dot(n, v2), sfmul(rot2, w2)), sfadd(sv2_dot(n, v1), sfmul(rot1, w1)))
}

/// What the restitution row of a contact must hold: normal-direction
/// jacobians about both levers, a nonnegative impulse warm-started from
/// the cache, and an objective that applies either the depth bias (deep
/// contacts) or restitution (shallow fast contacts).
pub open spec fn contact_rest_row_ok(
    r: VelocityConstraint,
    dt: Fx,
    c: Contact,
    rb1: RigidBody,
    rb2: RigidBody,
    idx: usize,
    warm: Fx,
    corr: CorrectionParameters,
) -> bool {
    let n = c.normal@;
    let rot1 = sv2_cross(spec_lever(c.world1@, rb1), n);
    let rot2 = sv2_cross(spec_lever(c.world2@, rb2), n);
    let vn = spec_rel_vel(
        n,
        rot1,
        rot2,
        rb1.lin_vel@,
        rb1.ang_vel as int,
        rb2.lin_vel@,
        rb2.ang_vel as int,
    );
    let target = if c.depth >= corr.corr_mode.spec_min_depth_for_pos_corr() {
        sfdiv(sfmul(corr.corr_mode.spec_vel_corr_factor() as int, c.depth as int), dt as int)
    } else {
        if sat(spec_abs(vn)) > corr.rest_eps as int {
            sfneg(sfmul(sfmul(rb1.restitution as int, rb2.restitution as int), vn))
        } else {
            0
        }
    };
    &&& r.normal == c.normal
    &&& r.rot_axis1 as int == rot1
    &&& r.rot_axis2 as int == rot2
    &&& r.weighted_normal1@ == sv2_scale(n, rb1.inv_mass as int)
    &&& r.weighted_normal2@ == sv2_scale(n, rb2.inv_mass as int)
    &&& r.weighted_rot_axis1 as int == sfmul(rb1.inv_inertia as int, rot1)
    &&& r.weighted_rot_axis2 as int == sfmul(rb2.inv_inertia as int, rot2)
    &&& r.inv_projected_mass as int == sfdiv(
        FX_ONE as int,
        spec_denom(
            n,
            rb1.inv_mass as int,
            rb2.inv_mass as int,
            rot1,
            rb1.inv_inertia as int,
            rot2,
            rb2.inv_inertia as int,
        ),
    )
    &&& r.impulse == warm
    &&& r.lobound == 0
    &&& r.hibound == FX_MAX
    &&& r.objective as int == sfsub(target, vn)
    &&& r.id1 == rb1.index
    &&& r.id2 == rb2.index
    &&& r.friction_limit_id == idx
    &&& r.friction_coeff == 0
}

/// What the friction row of a contact must hold: tangent-direction
/// jacobians, a friction coefficient combined from both materials, the
/// index of the restitution row that bounds it, and an objective that
/// cancels tangential relative velocity.
pub open spec fn contact_friction_row_ok(
    r: VelocityConstraint,
    c: Contact,
    rb1: RigidBody,
    rb2: RigidBody,
    idx: usize,
    warm: Fx,
) -> bool {
    let t = sv2_perp(c.normal@);
    let rot1 = sv2_cross(spec_lever(c.world1@, rb1), t);
    let rot2 = sv2_cross(spec_lever(c.world2@, rb2), t);
    let vt = spec_rel_vel(
        t,
        rot1,
        rot2,
        rb1.lin_vel@,
        rb1.ang_vel as int,
        rb2.lin_vel@,
        rb2.ang_vel as int,
    );
    &&& r.normal@ == t
    &&& r.rot_axis1 as int == rot1
    &&& r.rot_axis2 as int == rot2
    &&& r.weighted_normal1@ == sv2_scale(t, rb1.inv_mass as int)
    &&& r.weighted_normal2@ == sv2_scale(t, rb2.inv_mass as int)
    &&& r.weighted_rot_axis1 as int == sfmul(rb1.inv_inertia as int, rot1)
    &&& r.weighted_rot_axis2 as int == sfmul(rb2.inv_inertia as int, rot2)
    &&& r.inv_projected_mass as int == sfdiv(
        FX_ONE as int,
        spec_denom(
            t,
            rb1.inv_mass as int,
            rb2.inv_mass as int,
            rot1,
            rb1.inv_inertia as int,
            rot2,
            rb2.inv_inertia as int,
        ),
    )
    &&& r.impulse == warm
    &&& r.lobound == 0
    &&& r.hibound == 0
    &&& r.objective as int == sfneg(vt)
    &&& r.id1 == rb1.index
    &&& r.id2 == rb2.index
    &&& r.friction_limit_id == idx
    &&& r.friction_coeff as int == sfmul(rb1.friction as int, rb2.friction as int)
}

/// Build one direction's worth of a contact row.
fn build_directional_row(
    dir: &V2,
    c: &Contact,
    rb1: &RigidBody,
    rb2: &RigidBody,
) -> (r: (Fx, Fx, V2, V2, Fx, Fx, Fx, Fx))
    ensures
        ({
            let rot1 = sv2_cross(spec_lever(c.world1@, *rb1), dir@);
            let rot2 = sv2_cross(spec_lever(c.world2@, *rb2), dir@);
            &&& r.0 as int == rot1
            &&& r.1 as int == rot2
            &&& r.2@ == sv2_scale(dir@, rb1.inv_mass as int)
            &&& r.3@ == sv2_scale(dir@, rb2.inv_mass as int)
            &&& r.4 as int == sfmul(rb1.inv_inertia as int, rot1)
            &&& r.5 as int == sfmul(rb2.inv_inertia as int, rot2)
            &&& r.6 as int == sfdiv(
                FX_ONE as int,
                spec_denom(
                    dir@,
                    rb1.inv_mass as int,
                    rb2.inv_mass as int,
                    rot1,
                    rb1.inv_inertia as int,
                    rot2,
                    rb2.inv_inertia as int,
                ),
            )
            &&& r.7 as int == spec_rel_vel(
                dir@,
                rot1,
                rot2,
                rb1.lin_vel@,
                rb1.ang_vel as int,
                rb2.lin_vel@,
                rb2.ang_vel as int,
            )
        }),
{
    let r1 = v2_sub(&c.world1, &rb1.center_of_mass());
    let r2 = v2_sub(&c.world2, &rb2.center_of_mass());
    let rot1 = v2_cross(&r1, dir);
    let rot2 = v2_cross(&r2, dir);
    let wn1 = v2_scale(dir, rb1.inv_mass);
    let wn2 = v2_scale(dir, rb2.inv_mass);
    let wr1 = fmul(rb1.inv_inertia, rot1);
    let wr2 = fmul(rb2.inv_inertia, rot2);
    let denom = fadd(
        fmul(fadd(rb1.inv_mass, rb2.inv_mass), v2_dot(dir, dir)),
        fadd(fmul(rb1.inv_inertia, fmul(rot1, rot1)), fmul(rb2.inv_inertia, fmul(rot2, rot2))),
    );
    let ipm = fdiv(FX_ONE, denom);
    let vn = fsub(
        fadd(v2_dot(dir, &rb2.lin_vel), fmul(rot2, rb2.ang_vel)),
        fadd(v2_dot(dir, &rb1.lin_vel), fmul(rot1, rb1.ang_vel)),
    );
    (rot1, rot2, wn1, wn2, wr1, wr2, ipm, vn)
}

/// Build the restitution row and the friction row of one contact.
///
/// `idx` is the row's position among the restitution rows; the friction
/// row carries it as its coupling index. `warm_n` and `warm_t` are the
/// warm-start impulses taken from the cache.
pub fn fill_second_order_equation(
    dt: Fx,
    c: &Contact,
    rb1: &RigidBody,
    rb2: &RigidBody,
    idx: usize,
    warm_n: Fx,
    warm_t: Fx,
    corr: &CorrectionParameters,
) -> (r: (VelocityConstraint, VelocityConstraint))
    ensures
        contact_rest_row_ok(r.0, dt, *c, *rb1, *rb2, idx, warm_n, *corr),
        contact_friction_row_ok(r.1, *c, *rb1, *rb2, idx, warm_t),
{
    let d = build_directional_row(&c.normal, c, rb1, rb2);
    let vn = d.7;
    let target = if c.depth >= corr.corr_mode.min_depth_for_pos_corr() {
        fdiv(fmul(corr.corr_mode.vel_corr_factor(), c.depth), dt)
    } else {
        if fabs(vn) > corr.rest_eps {
            fneg(fmul(fmul(rb1.restitution, rb2.restitution), vn))
        } else {
            0
        }
    };
    let rest = VelocityConstraint {
        normal: c.normal,
        rot_axis1: d.0,
        rot_axis2: d.1,
        weighted_normal1: d.2,
        weighted_normal2: d.3,
        weighted_rot_axis1: d.4,
        weighted_rot_axis2: d.5,
        inv_projected_mass: d.6,
        impulse: warm_n,
        lobound: 0,
        hibound: FX_MAX,
        objective: fsub(target, vn),
        id1: rb1.index,
        id2: rb2.index,
        friction_limit_id: idx,
        friction_coeff: 0,
    };
    let tangent = v2_perp(&c.normal);
    let f = build_directional_row(&tangent, c, rb1, rb2);
    let fric = VelocityConstraint {
        normal: tangent,
        rot_axis1: f.0,
        rot_axis2: f.1,
        weighted_normal1: f.2,
        weighted_normal2: f.3,
        weighted_rot_axis1: f.4,
        weighted_rot_axis2: f.5,
        inv_projected_mass: f.6,
        impulse: warm_t,
        lobound: 0,
        hibound: 0,
        objective: fneg(f.7),
        id1: rb1.index,
        id2: rb2.index,
        friction_limit_id: idx,
        friction_coeff: fmul(rb1.friction, rb2.friction),
    };
    (rest, fric)
}

/// What a restitution row looks like after it is re-aimed at positional
/// correction: the geometry survives, the impulse restarts at zero, and
/// the objective pushes the penetration beyond the trigger depth out over
/// the step.
pub open spec fn first_order_row_ok(
    r: VelocityConstraint,
    prev: VelocityConstraint,
    dt: Fx,
    depth: Fx,
    corr: CorrectionParameters,
) -> bool {
    let obj = if depth >= corr.corr_mode.spec_min_depth_for_pos_corr() {
        sfdiv(
            sfmul(
                corr.corr_mode.spec_pos_corr_factor() as int,
                sfsub(depth as int, corr.corr_mode.spec_min_depth_for_pos_corr() as int),
            ),
            dt as int,
        )
    } else {
        0
    };
    &&& r == (VelocityConstraint {
        impulse: 0,
        lobound: 0,
        hibound: FX_MAX,
        objective: r.objective,
        ..prev
    })
    &&& r.objective as int == obj
}

/// Re-aim a contact's restitution row at first-order positional
/// correction.
pub fn reinit_to_first_order_equation(
    dt: Fx,
    depth: Fx,
    row: &mut VelocityConstraint,
    corr: &CorrectionParameters,
)
    ensures
        first_order_row_ok(*final(row), *old(row), dt, depth, *corr),
{
    let obj = if depth >= corr.corr_mode.min_depth_for_pos_corr() {
        fdiv(
            fmul(
                corr.corr_mode.pos_corr_factor(),
                fsub(depth, corr.corr_mode.min_depth_for_pos_corr()),
            ),
            dt,
        )
    } else {
        0
    };
    row.impulse = 0;
    row.lobound = 0;
    row.hibound = FX_MAX;
    row.objective = obj;
}

}
