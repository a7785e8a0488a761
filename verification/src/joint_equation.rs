//! Building velocity constraint rows from joints.
//!
//! A ball-in-socket joint contributes one row per linear axis, forcing the
//! relative velocity of its two world anchor points toward a bias that
//! closes the anchor gap. A fixed joint adds one angular row on top,
//! forcing the relative angular velocity toward a bias that closes the
//! orientation gap (measured by the sine component of the relative
//! rotation). Joint rows have unbounded impulses and no friction coupling.

use vstd::prelude::*;
use crate::fx::{Fx, FX_ONE, FX_MAX, FX_MIN, fadd, fsub, fneg, fmul, fdiv, sfadd, sfsub, sfneg,
    sfmul, sfdiv};
use crate::alg::{V2, v2_sub, v2_scale, v2_dot, v2_cross, sv2_sub, sv2_scale, sv2_dot, sv2_cross,
    srot_compose, srot_inv, siso_apply};
use crate::body::RigidBody;
use crate::velocity_constraint::VelocityConstraint;

verus! {

/// One side of a joint row: the solver-relevant data of an anchor's body,
/// or inert values when the anchor is pinned to the world.
#[derive(Clone, Copy, PartialEq, Eq, Structural, Debug)]
pub struct JointSide {
    /// Dense solver index, `-1` for a world anchor.
    pub id: i64,
    /// Inverse mass, zero for a world anchor.
    pub inv_mass: Fx,
    /// Inverse inertia, zero for a world anchor.
    pub inv_inertia: Fx,
    /// World center of mass; the anchor point itself for a world anchor.
    pub com: V2,
    /// Linear velocity.
    pub lin_vel: V2,
    /// Angular velocity.
    pub ang_vel: Fx,
}

/// The side data of an optional anchor body.
pub open spec fn spec_joint_side(b: Option<RigidBody>, anchor_world: V2) -> JointSide {
    match b {
        Some(rb) => JointSide {
            id: rb.index,
            inv_mass: rb.inv_mass,
            inv_inertia: rb.inv_inertia,
            com: rb.spec_center_of_mass(),
            lin_vel: rb.lin_vel,
            ang_vel: rb.ang_vel,
        },
        None => JointSide {
            id: -1i64,
            inv_mass: 0,
            inv_inertia: 0,
            com: anchor_world,
            lin_vel: V2 { x: 0, y: 0 },
            ang_vel: 0,
        },
    }
}

/// The side data of an optional anchor body.
pub fn joint_side(b: Option<&RigidBody>, anchor_world: &V2) -> (r: JointSide)
    ensures
        r == spec_joint_side(
            match b {
                Some(rb) => Some(*rb),
                None => None,
            },
            *anchor_world,
        ),
{
    match b {
        Some(rb) => JointSide {
            id: rb.index,
            inv_mass: rb.inv_mass,
            inv_inertia: rb.inv_inertia,
            com: rb.center_of_mass(),
            lin_vel: rb.lin_vel,
            ang_vel: rb.ang_vel,
        },
        None => JointSide {
            id: -1,
            inv_mass: 0,
            inv_inertia: 0,
            com: *anchor_world,
            lin_vel: V2 { x: 0, y: 0 },
            ang_vel: 0,
        },
    }
}

/// What a joint's linear row along `axis` must hold, given the two world
/// anchor points and side data.
pub open spec fn joint_axis_row_ok(
    r: VelocityConstraint,
    dt: Fx,
    axis: V2,
    a1: V2,
    a2: V2,
    s1: JointSide,
    s2: JointSide,
    joint_corr: Fx,
) -> bool {
    let rot1 = sv2_cross(sv2_sub(a1@, s1.com@), axis@);
    let rot2 = sv2_cross(sv2_sub(a2@, s2.com@), axis@);
    let vn = sfsub(
        sfadd(sv2_dot(axis@, s2.lin_vel@), sfmul(rot2, s2.ang_vel as int)),
        sfadd(sv2_dot(axis@, s1.lin_vel@), sfmul(rot1, s1.ang_vel as int)),
    );
    let err = sv2_dot(sv2_sub(a2@, a1@), axis@);
    let target = sfneg(sfdiv(sfmul(joint_corr as int, err), dt as int));
    &&& r.normal == axis
    &&& r.rot_axis1 as int == rot1
    &&& r.rot_axis2 as int == rot2
    &&& r.weighted_normal1@ == sv2_scale(axis@, s1.inv_mass as int)
    &&& r.weighted_normal2@ == sv2_scale(axis@, s2.inv_mass as int)
    &&& r.weighted_rot_axis1 as int == sfmul(s1.inv_inertia as int, rot1)
    &&& r.weighted_rot_axis2 as int == sfmul(s2.inv_inertia as int, rot2)
    &&& r.inv_projected_mass as int == sfdiv(
        FX_ONE as int,
        sfadd(
            sfmul(sfadd(s1.inv_mass as int, s2.inv_mass as int), sv2_dot(axis@, axis@)),
            sfadd(
                sfmul(s1.inv_inertia as int, sfmul(rot1, rot1)),
                sfmul(s2.inv_inertia as int, sfmul(rot2, rot2)),
            ),
        ),
    )
    &&& r.impulse == 0
    &&& r.lobound == FX_MIN
    &&& r.hibound == FX_MAX
    &&& r.objective as int == sfsub(target, vn)
    &&& r.id1 == s1.id
    &&& r.id2 == s2.id
    &&& r.friction_limit_id == 0
    &&& r.friction_coeff == 0
}

/// Build a joint's linear row along `axis`.
pub fn build_joint_axis_row(
    dt: Fx,
    axis: &V2,
    a1: &V2,
    a2: &V2,
    s1: &JointSide,
    s2: &JointSide,
    joint_corr: Fx,
) -> (r: VelocityConstraint)
    ensures
        joint_axis_row_ok(r, dt, *axis, *a1, *a2, *s1, *s2, joint_corr),
{
    let r1 = v2_sub(a1, &s1.com);
    let r2 = v2_sub(a2, &s2.com);
    let rot1 = v2_cross(&r1, axis);
    let rot2 = v2_cross(&r2, axis);
    let denom = fadd(
        fmul(fadd(s1.inv_mass, s2.inv_mass), v2_dot(axis, axis)),
        fadd(fmul(s1.inv_inertia, fmul(rot1, rot1)), fmul(s2.inv_inertia, fmul(rot2, rot2))),
    );
    let vn = fsub(
        fadd(v2_dot(axis, &s2.lin_vel), fmul(rot2, s2.ang_vel)),
        fadd(v2_dot(axis, &s1.lin_vel), fmul(rot1, s1.ang_vel)),
    );
    let err = v2_dot(&v2_sub(a2, a1), axis);
    let target = fneg(fdiv(fmul(joint_corr, err), dt));
    VelocityConstraint {
        normal: *axis,
        rot_axis1: rot1,
        rot_axis2: rot2,
        weighted_normal1: v2_scale(axis, s1.inv_mass),
        weighted_normal2: v2_scale(axis, s2.inv_mass),
        weighted_rot_axis1: fmul(s1.inv_inertia, rot1),
        weighted_rot_axis2: fmul(s2.inv_inertia, rot2),
        inv_projected_mass: fdiv(FX_ONE, denom),
        impulse: 0,
        lobound: FX_MIN,
        hibound: FX_MAX,
        objective: fsub(target, vn),
        id1: s1.id,
        id2: s2.id,
        friction_limit_id: 0,
        friction_coeff: 0,
    }
}

/// What a fixed joint's angular row must hold: a pure angular jacobian and
/// an objective that closes the orientation gap `ang_err` over the step.
pub open spec fn joint_angular_row_ok(
    r: VelocityConstraint,
    dt: Fx,
    ang_err: Fx,
    s1: JointSide,
    s2: JointSide,
    joint_corr: Fx,
) -> bool {
    let vn = sfsub(s2.ang_vel as int, s1.ang_vel as int);
    let target = sfneg(sfdiv(sfmul(joint_corr as int, ang_err as int), dt as int));
    &&& r.normal == (V2 { x: 0, y: 0 })
    &&& r.rot_axis1 == FX_ONE
    &&& r.rot_axis2 == FX_ONE
    &&& r.weighted_normal1 == (V2 { x: 0, y: 0 })
    &&& r.weighted_normal2 == (V2 { x: 0, y: 0 })
    &&& r.weighted_rot_axis1 == s1.inv_inertia
    &&& r.weighted_rot_axis2 == s2.inv_inertia
    &&& r.inv_projected_mass as int == sfdiv(
        FX_ONE as int,
        sfadd(s1.inv_inertia as int, s2.inv_inertia as int),
    )
    &&& r.impulse == 0
    &&& r.lobound == FX_MIN
    &&& r.hibound == FX_MAX
    &&& r.objective as int == sfsub(target, vn)
    &&& r.id1 == s1.id
    &&& r.id2 == s2.id
    &&& r.friction_limit_id == 0
    &&& r.friction_coeff == 0
}

/// Build a fixed joint's angular row.
pub fn build_joint_angular_row(
    dt: Fx,
    ang_err: Fx,
    s1: &JointSide,
    s2: &JointSide,
    joint_corr: Fx,
) -> (r: VelocityConstraint)
    ensures
        joint_angular_row_ok(r, dt, ang_err, *s1, *s2, joint_corr),
{
    let vn = fsub(s2.ang_vel, s1.ang_vel);
    let target = fneg(fdiv(fmul(joint_corr, ang_err), dt));
    VelocityConstraint {
        normal: V2 { x: 0, y: 0 },
        rot_axis1: FX_ONE,
        rot_axis2: FX_ONE,
        weighted_normal1: V2 { x: 0, y: 0 },
        weighted_normal2: V2 { x: 0, y: 0 },
        weighted_rot_axis1: s1.inv_inertia,
        weighted_rot_axis2: s2.inv_inertia,
        inv_projected_mass: fdiv(FX_ONE, fadd(s1.inv_inertia, s2.inv_inertia)),
        impulse: 0,
        lobound: FX_MIN,
        hibound: FX_MAX,
        objective: fsub(target, vn),
        id1: s1.id,
        id2: s2.id,
        friction_limit_id: 0,
        friction_coeff: 0,
    }
}

/// The sine component of the relative rotation of two frames: the
/// orientation error a fixed joint corrects.
pub open spec fn spec_ang_err(rot1: (int, int), rot2: (int, int)) -> int {
    srot_compose(rot2, srot_inv(rot1)).1
}

/// The orientation error between two world anchor frames.
pub fn angular_error(rot1: &crate::alg::Rot2, rot2: &crate::alg::Rot2) -> (r: Fx)
    ensures
        r as int == spec_ang_err(rot1@, rot2@),
{
    crate::alg::rot_compose(rot2, &crate::alg::rot_inv(rot1)).s
}

}
