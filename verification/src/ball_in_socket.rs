//! A joint that keeps two attach points coincident while leaving rotation
//! free.

use vstd::prelude::*;
use crate::alg::V2;
use crate::anchor::{Anchor, spec_anchor_world_point};
use crate::body::RigidBody;

verus! {

/// A ball-in-socket joint between two point anchors.
#[derive(Clone, Copy, Debug)]
pub struct BallInSocket {
    /// Cleared by any user edit, set by the joint manager's per-tick
    /// reconciliation.
    pub up_to_date: bool,
    /// The first anchor.
    pub anchor1: Anchor<V2>,
    /// The second anchor.
    pub anchor2: Anchor<V2>,
}

impl BallInSocket {
    /// Creates a new `BallInSocket` joint.
    pub fn new(anchor1: Anchor<V2>, anchor2: Anchor<V2>) -> (r: BallInSocket)
        ensures
            r == (BallInSocket { up_to_date: false, anchor1, anchor2 }),
    {
        BallInSocket { up_to_date: false, anchor1, anchor2 }
    }

    /// Tells if the joint has been modified by the user.
    pub fn up_to_date(&self) -> (r: bool)
        ensures
            r == self.up_to_date,
    {
        self.up_to_date
    }

    /// Marks the joint as reconciled.
    pub fn update(&mut self)
        ensures
            *final(self) == (BallInSocket { up_to_date: true, ..*old(self) }),
    {
        self.up_to_date = true;
    }

    /// Sets the first anchor position, expressed in the first attached
    /// body's local coordinates. A change invalidates the joint.
    pub fn set_local1(&mut self, local1: V2)
        ensures
            *final(self) == (if local1 == old(self).anchor1.position {
                *old(self)
            } else {
                BallInSocket {
                    up_to_date: false,
                    anchor1: (Anchor { position: local1, ..old(self).anchor1 }),
                    ..*old(self)
                }
            }),
    {
        if local1 != self.anchor1.position {
            self.up_to_date = false;
            self.anchor1.position = local1;
        }
    }

    /// Sets the second anchor position, expressed in the second attached
    /// body's local coordinates. A change invalidates the joint.
    pub fn set_local2(&mut self, local2: V2)
        ensures
            *final(self) == (if local2 == old(self).anchor2.position {
                *old(self)
            } else {
                BallInSocket {
                    up_to_date: false,
                    anchor2: (Anchor { position: local2, ..old(self).anchor2 }),
                    ..*old(self)
                }
            }),
    {
        if local2 != self.anchor2.position {
            self.up_to_date = false;
            self.anchor2.position = local2;
        }
    }

    /// The first attach point in global coordinates.
    pub fn anchor1_pos(&self, bodies: &Vec<RigidBody>) -> (r: V2)
        requires
            self.anchor1.body matches Some(h) ==> h < bodies.len(),
        ensures
            r@ == spec_anchor_world_point(self.anchor1, bodies@),
    {
        match self.anchor1.body {
            Some(h) => crate::alg::iso_apply(&bodies[h].position, &self.anchor1.position),
            None => self.anchor1.position,
        }
    }

    /// The second attach point in global coordinates.
    pub fn anchor2_pos(&self, bodies: &Vec<RigidBody>) -> (r: V2)
        requires
            self.anchor2.body matches Some(h) ==> h < bodies.len(),
        ensures
            r@ == spec_anchor_world_point(self.anchor2, bodies@),
    {
        match self.anchor2.body {
            Some(h) => crate::alg::iso_apply(&bodies[h].position, &self.anchor2.position),
            None => self.anchor2.position,
        }
    }
}

}
