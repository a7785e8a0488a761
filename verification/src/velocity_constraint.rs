//! One scalar constraint row of the velocity solver.

use vstd::prelude::*;
use crate::fx::Fx;
use crate::alg::V2;

verus! {

/// A velocity constraint row: the jacobian of both involved bodies, its
/// mass-weighted form, the accumulated impulse with its bounds, and the
/// target (objective) velocity.
///
/// `id1` and `id2` are dense solver indices; `-1` stands for an immovable
/// or absent body whose side of the row is inert. A friction row carries
/// the index of its restitution row in `friction_limit_id`, so the solver
/// can bound its impulse by the friction cone each iteration.
#[derive(Clone, Copy, PartialEq, Eq, Structural, Debug)]
pub struct VelocityConstraint {
    /// Linear jacobian direction: positive for the second body, negative
    /// for the first.
    pub normal: V2,
    /// `normal` scaled by the first body's inverse mass.
    pub weighted_normal1: V2,
    /// `normal` scaled by the second body's inverse mass.
    pub weighted_normal2: V2,
    /// Angular jacobian of the first body.
    pub rot_axis1: Fx,
    /// `rot_axis1` scaled by the first body's inverse inertia.
    pub weighted_rot_axis1: Fx,
    /// Angular jacobian of the second body.
    pub rot_axis2: Fx,
    /// `rot_axis2` scaled by the second body's inverse inertia.
    pub weighted_rot_axis2: Fx,
    /// Inverse of the row's effective mass; zero when degenerate.
    pub inv_projected_mass: Fx,
    /// Accumulated impulse.
    pub impulse: Fx,
    /// Lower impulse bound.
    pub lobound: Fx,
    /// Upper impulse bound.
    pub hibound: Fx,
    /// Target constraint velocity, measured against the pre-solve body
    /// velocities.
    pub objective: Fx,
    /// Dense index of the first body, `-1` when inert.
    pub id1: i64,
    /// Dense index of the second body, `-1` when inert.
    pub id2: i64,
    /// For a friction row, the index of its restitution row.
    pub friction_limit_id: usize,
    /// For a friction row, the friction coefficient of the contact.
    pub friction_coeff: Fx,
}

impl VelocityConstraint {
    /// An inert row: zero jacobians, zero impulse, empty bounds.
    pub fn new() -> (r: VelocityConstraint)
        ensures
            r == VelocityConstraint::spec_new(),
    {
        VelocityConstraint {
            normal: V2 { x: 0, y: 0 },
            weighted_normal1: V2 { x: 0, y: 0 },
            weighted_normal2: V2 { x: 0, y: 0 },
            rot_axis1: 0,
            weighted_rot_axis1: 0,
            rot_axis2: 0,
            weighted_rot_axis2: 0,
            inv_projected_mass: 0,
            impulse: 0,
            lobound: 0,
            hibound: 0,
            objective: 0,
            id1: -1,
            id2: -1,
            friction_limit_id: 0,
            friction_coeff: 0,
        }
    }

    /// The inert row.
    pub open spec fn spec_new() -> VelocityConstraint {
        VelocityConstraint {
            normal: V2 { x: 0, y: 0 },
            weighted_normal1: V2 { x: 0, y: 0 },
            weighted_normal2: V2 { x: 0, y: 0 },
            rot_axis1: 0,
            weighted_rot_axis1: 0,
            rot_axis2: 0,
            weighted_rot_axis2: 0,
            inv_projected_mass: 0,
            impulse: 0,
            lobound: 0,
            hibound: 0,
            objective: 0,
            id1: -1i64,
            id2: -1i64,
            friction_limit_id: 0,
            friction_coeff: 0,
        }
    }

    /// The row with only its impulse replaced.
    pub open spec fn with_impulse(self, imp: Fx) -> VelocityConstraint {
        VelocityConstraint { impulse: imp, ..self }
    }

    /// The row with its impulse and both bounds replaced.
    pub open spec fn with_impulse_bounds(self, imp: Fx, lo: Fx, hi: Fx) -> VelocityConstraint {
        VelocityConstraint { impulse: imp, lobound: lo, hibound: hi, ..self }
    }
}

}
