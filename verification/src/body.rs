//! Rigid bodies and their activation state.
//!
//! A body lives in an arena (`Vec<RigidBody>`) and is addressed by its
//! position there; every collaborator stores such handles, never references.

use vstd::prelude::*;
use crate::fx::Fx;
use crate::alg::{V2, Iso2, iso_apply, iso_compose, iso_append_translation, siso_apply,
    siso_compose, siso_append_translation};

verus! {

/// Whether a body is awake, asleep, or removed from simulation.
/// `Deleted` must never be observed by the solver or the activation manager.
#[derive(Clone, Copy, PartialEq, Eq, Structural, Debug)]
pub enum ActivationState {
    /// Awake, with the running kinetic-energy average.
    Active(Fx),
    /// Asleep.
    Inactive,
    /// Removed; never fed to any pass.
    Deleted,
}

impl ActivationState {
    /// The stored energy; an asleep or removed body counts as zero.
    pub open spec fn spec_energy(self) -> int {
        match self {
            ActivationState::Active(e) => e as int,
            _ => 0,
        }
    }

    /// The stored energy; an asleep or removed body counts as zero.
    pub fn energy(&self) -> (r: Fx)
        ensures
            r as int == self.spec_energy(),
    {
        match *self {
            ActivationState::Active(e) => e,
            _ => 0,
        }
    }
}

/// A simulated rigid body: mass properties, transform, velocities, material,
/// movability, activation state, and the transient solver index.
///
/// The solver index is `-2` while waiting for assignment, `-1` for an
/// immovable or unindexed body, and otherwise a dense row into the solver's
/// per-body velocity-delta array.
#[derive(Clone, Copy, PartialEq, Eq, Structural, Debug)]
pub struct RigidBody {
    /// Current transform: position and orientation.
    pub position: Iso2,
    /// Center of mass in local coordinates.
    pub local_com: V2,
    /// Linear velocity.
    pub lin_vel: V2,
    /// Angular velocity.
    pub ang_vel: Fx,
    /// Inverse mass; zero for an immovable body.
    pub inv_mass: Fx,
    /// Inverse moment of inertia; zero for an immovable body.
    pub inv_inertia: Fx,
    /// Restitution coefficient of the material.
    pub restitution: Fx,
    /// Friction coefficient of the material.
    pub friction: Fx,
    /// Whether the body is dynamic (`true`) or static (`false`).
    pub movable: bool,
    /// Awake, asleep, or removed.
    pub state: ActivationState,
    /// Optional deactivation energy threshold; a body without one never
    /// sleeps.
    pub threshold: Option<Fx>,
    /// Transient solver index.
    pub index: i64,
}

impl RigidBody {
    /// Well-formedness: a positive threshold when present, nonnegative mass
    /// properties and material, and no inverse mass on an immovable body.
    pub open spec fn wf(self) -> bool {
        &&& (self.threshold matches Some(t) ==> t > 0)
        &&& self.inv_mass >= 0
        &&& self.inv_inertia >= 0
        &&& self.restitution >= 0
        &&& self.friction >= 0
        &&& (!self.movable ==> self.inv_mass == 0 && self.inv_inertia == 0)
    }

    /// A new body at rest, awake with unit energy.
    pub fn new(
        position: Iso2,
        local_com: V2,
        inv_mass: Fx,
        inv_inertia: Fx,
        restitution: Fx,
        friction: Fx,
        movable: bool,
        threshold: Option<Fx>,
    ) -> (r: RigidBody)
        requires
            threshold matches Some(t) ==> t > 0,
            inv_mass >= 0,
            inv_inertia >= 0,
            restitution >= 0,
            friction >= 0,
            !movable ==> inv_mass == 0 && inv_inertia == 0,
        ensures
            r == (RigidBody {
                position,
                local_com,
                lin_vel: V2 { x: 0, y: 0 },
                ang_vel: 0,
                inv_mass,
                inv_inertia,
                restitution,
                friction,
                movable,
                state: ActivationState::Active(crate::fx::FX_ONE),
                threshold,
                index: -1i64,
            }),
            r.wf(),
    {
        RigidBody {
            position,
            local_com,
            lin_vel: V2 { x: 0, y: 0 },
            ang_vel: 0,
            inv_mass,
            inv_inertia,
            restitution,
            friction,
            movable,
            state: ActivationState::Active(crate::fx::FX_ONE),
            threshold,
            index: -1,
        }
    }

    /// Whether the body is dynamic.
    pub fn can_move(&self) -> (r: bool)
        ensures
            r == self.movable,
    {
        self.movable
    }

    /// Whether the body is awake.
    pub fn is_active(&self) -> (r: bool)
        ensures
            r == (self.state is Active),
    {
        match self.state {
            ActivationState::Active(_) => true,
            _ => false,
        }
    }

    /// Wake the body up with the given energy.
    pub fn activate(&mut self, energy: Fx)
        ensures
            *final(self) == (RigidBody { state: ActivationState::Active(energy), ..*old(self) }),
    {
        self.state = ActivationState::Active(energy);
    }

    /// Put the body to sleep: state `Inactive` and both velocities zeroed.
    pub fn deactivate(&mut self)
        ensures
            *final(self) == (RigidBody {
                state: ActivationState::Inactive,
                lin_vel: V2 { x: 0, y: 0 },
                ang_vel: 0,
                ..*old(self)
            }),
    {
        self.state = ActivationState::Inactive;
        self.lin_vel = V2 { x: 0, y: 0 };
        self.ang_vel = 0;
    }

    /// Store a transient solver index.
    pub fn set_index(&mut self, i: i64)
        ensures
            *final(self) == (RigidBody { index: i, ..*old(self) }),
    {
        self.index = i;
    }

    /// The world-space center of mass.
    pub open spec fn spec_center_of_mass(self) -> V2 {
        V2 {
            x: siso_apply(self.position@, self.local_com@).0 as i64,
            y: siso_apply(self.position@, self.local_com@).1 as i64,
        }
    }

    /// The world-space center of mass.
    pub fn center_of_mass(&self) -> (r: V2)
        ensures
            r@ == siso_apply(self.position@, self.local_com@),
            r == self.spec_center_of_mass(),
    {
        iso_apply(&self.position, &self.local_com)
    }

    /// Translate the body in world space.
    pub fn append_translation(&mut self, t: &V2)
        ensures
            *final(self) == (RigidBody { position: final(self).position, ..*old(self) }),
            final(self).position@ == siso_append_translation(old(self).position@, t@),
    {
        self.position = iso_append_translation(&self.position, t);
    }

    /// Apply a transform delta on the left of the body's transform.
    pub fn append_transformation(&mut self, m: &Iso2)
        ensures
            *final(self) == (RigidBody { position: final(self).position, ..*old(self) }),
            final(self).position@ == siso_compose(m@, old(self).position@),
    {
        self.position = iso_compose(m, &self.position);
    }
}

}
