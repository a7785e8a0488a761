//! A joint that prevents any relative movement (linear and angular) between
//! two objects.

use vstd::prelude::*;
use crate::alg::Iso2;
use crate::anchor::{Anchor, spec_anchor_world_iso};
use crate::body::RigidBody;

verus! {

/// A fixed joint between two frame anchors.
#[derive(Clone, Copy, Debug)]
pub struct Fixed {
    /// Cleared by any user edit, set by the joint manager's per-tick
    /// reconciliation.
    pub up_to_date: bool,
    /// The first anchor.
    pub anchor1: Anchor<Iso2>,
    /// The second anchor.
    pub anchor2: Anchor<Iso2>,
}

impl Fixed {
    /// Creates a new `Fixed` joint.
    pub fn new(anchor1: Anchor<Iso2>, anchor2: Anchor<Iso2>) -> (r: Fixed)
        ensures
            r == (Fixed { up_to_date: false, anchor1, anchor2 }),
    {
        Fixed { up_to_date: false, anchor1, anchor2 }
    }

    /// Tells if the joint has been modified by the user.
    pub fn up_to_date(&self) -> (r: bool)
        ensures
            r == self.up_to_date,
    {
        self.up_to_date
    }

    /// Marks the joint as reconciled.
    pub fn update(&mut self)
        ensures
            *final(self) == (Fixed { up_to_date: true, ..*old(self) }),
    {
        self.up_to_date = true;
    }

    /// Sets the first anchor frame, expressed in the first attached body's
    /// local coordinates. A change invalidates the joint.
    pub fn set_local1(&mut self, local1: Iso2)
        ensures
            *final(self) == (if local1 == old(self).anchor1.position {
                *old(self)
            } else {
                Fixed {
                    up_to_date: false,
                    anchor1: (Anchor { position: local1, ..old(self).anchor1 }),
                    ..*old(self)
                }
            }),
    {
        if local1 != self.anchor1.position {
            self.up_to_date = false;
            self.anchor1.position = local1;
        }
    }

    /// Sets the second anchor frame, expressed in the second attached
    /// body's local coordinates. A change invalidates the joint.
    pub fn set_local2(&mut self, local2: Iso2)
        ensures
            *final(self) == (if local2 == old(self).anchor2.position {
                *old(self)
            } else {
                Fixed {
                    up_to_date: false,
                    anchor2: (Anchor { position: local2, ..old(self).anchor2 }),
                    ..*old(self)
                }
            }),
    {
        if local2 != self.anchor2.position {
            self.up_to_date = false;
            self.anchor2.position = local2;
        }
    }

    /// The first attach frame in global coordinates.
    pub fn anchor1_pos(&self, bodies: &Vec<RigidBody>) -> (r: Iso2)
        requires
            self.anchor1.body matches Some(h) ==> h < bodies.len(),
        ensures
            r@ == spec_anchor_world_iso(self.anchor1, bodies@),
    {
        match self.anchor1.body {
            Some(h) => crate::alg::iso_compose(&bodies[h].position, &self.anchor1.position),
            None => self.anchor1.position,
        }
    }

    /// The second attach frame in global coordinates.
    pub fn anchor2_pos(&self, bodies: &Vec<RigidBody>) -> (r: Iso2)
        requires
            self.anchor2.body matches Some(h) ==> h < bodies.len(),
        ensures
            r@ == spec_anchor_world_iso(self.anchor2, bodies@),
    {
        match self.anchor2.body {
            Some(h) => crate::alg::iso_compose(&bodies[h].position, &self.anchor2.position),
            None => self.anchor2.position,
        }
    }
}

}
