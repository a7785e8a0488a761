//! Correction strategy of the constraint solver: how positional error is
//! folded into the velocity bias and whether a first-order positional pass
//! runs.

use vstd::prelude::*;
use crate::fx::Fx;

verus! {

/// How penetration is corrected.
#[derive(Clone, Copy, PartialEq, Eq, Structural, Debug)]
pub enum CorrectionMode {
    /// Positional correction folded into the velocity bias: bias factor and
    /// the minimum depth that triggers it.
    Velocity(Fx, Fx),
    /// Both a velocity bias and a first-order positional pass: velocity
    /// bias factor, positional factor, minimum depth.
    VelocityAndPosition(Fx, Fx, Fx),
    /// Only the first-order positional pass: positional factor and minimum
    /// depth.
    Position(Fx, Fx),
}

impl CorrectionMode {
    /// The factor folded into the velocity bias.
    pub open spec fn spec_vel_corr_factor(self) -> Fx {
        match self {
            CorrectionMode::Velocity(v, _) => v,
            CorrectionMode::VelocityAndPosition(v, _, _) => v,
            CorrectionMode::Position(_, _) => 0,
        }
    }

    /// The factor of the first-order positional pass; zero disables it.
    pub open spec fn spec_pos_corr_factor(self) -> Fx {
        match self {
            CorrectionMode::Velocity(_, _) => 0,
            CorrectionMode::VelocityAndPosition(_, p, _) => p,
            CorrectionMode::Position(p, _) => p,
        }
    }

    /// The smallest penetration depth that triggers correction.
    pub open spec fn spec_min_depth_for_pos_corr(self) -> Fx {
        match self {
            CorrectionMode::Velocity(_, d) => d,
            CorrectionMode::VelocityAndPosition(_, _, d) => d,
            CorrectionMode::Position(_, d) => d,
        }
    }

    /// The factor folded into the velocity bias.
    pub fn vel_corr_factor(&self) -> (r: Fx)
        ensures
            r == self.spec_vel_corr_factor(),
    {
        match *self {
            CorrectionMode::Velocity(v, _) => v,
            CorrectionMode::VelocityAndPosition(v, _, _) => v,
            CorrectionMode::Position(_, _) => 0,
        }
    }

    /// The factor of the first-order positional pass; zero disables it.
    pub fn pos_corr_factor(&self) -> (r: Fx)
        ensures
            r == self.spec_pos_corr_factor(),
    {
        match *self {
            CorrectionMode::Velocity(_, _) => 0,
            CorrectionMode::VelocityAndPosition(_, p, _) => p,
            CorrectionMode::Position(p, _) => p,
        }
    }

    /// The smallest penetration depth that triggers correction.
    pub fn min_depth_for_pos_corr(&self) -> (r: Fx)
        ensures
            r == self.spec_min_depth_for_pos_corr(),
    {
        match *self {
            CorrectionMode::Velocity(_, d) => d,
            CorrectionMode::VelocityAndPosition(_, _, d) => d,
            CorrectionMode::Position(_, d) => d,
        }
    }
}

/// The solver's correction configuration.
#[derive(Clone, Copy, PartialEq, Eq, Structural, Debug)]
pub struct CorrectionParameters {
    /// How penetration is corrected.
    pub corr_mode: CorrectionMode,
    /// Correction factor of joint positional drift.
    pub joint_corr: Fx,
    /// Relative normal velocities below this magnitude carry no
    /// restitution.
    pub rest_eps: Fx,
}

}
