//! Constraints between rigid bodies: contacts and joints, as one closed sum
//! type, addressed by arena handles.

use vstd::prelude::*;
use crate::fx::Fx;
use crate::alg::V2;

verus! {

/// A narrow-phase contact: world-space points on each body, the unit
/// normal pointing from the first body toward the second, and the
/// penetration depth. Immutable within a tick.
#[derive(Clone, Copy, PartialEq, Eq, Structural, Debug)]
pub struct Contact {
    /// Contact point on the first body, in world space.
    pub world1: V2,
    /// Contact point on the second body, in world space.
    pub world2: V2,
    /// Unit normal, from the first body toward the second.
    pub normal: V2,
    /// Penetration depth.
    pub depth: Fx,
}

/// A constraint between two rigid bodies.
///
/// Bodies and joints are referred to by their arena handles.
#[derive(Clone, Copy, PartialEq, Eq, Structural, Debug)]
pub enum Constraint {
    /// A contact between two bodies.
    RBRB(usize, usize, Contact),
    /// A ball-in-socket joint, by handle into the ball-in-socket arena.
    BallInSocket(usize),
    /// A fixed joint, by handle into the fixed-joint arena.
    Fixed(usize),
}

}
