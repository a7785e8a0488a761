//! Joint anchors: an attachment point on an optional body.
//!
//! An anchor without a body is pinned to the world frame; its position is
//! then already in world coordinates.

use vstd::prelude::*;
use crate::alg::{V2, Iso2, siso_apply, siso_compose};
use crate::body::RigidBody;

verus! {

/// One attachment of a joint: an optional body handle and a position in
/// that body's local frame (or in the world frame when no body is given).
#[derive(Clone, Copy, Debug)]
pub struct Anchor<P> {
    /// Handle of the attached body, if any.
    pub body: Option<usize>,
    /// Attachment position, local to the body or to the world.
    pub position: P,
}

/// The world-space point of a point anchor.
pub open spec fn spec_anchor_world_point(a: Anchor<V2>, bodies: Seq<RigidBody>) -> (int, int) {
    match a.body {
        Some(h) => siso_apply(bodies[h as int].position@, a.position@),
        None => a.position@,
    }
}

/// The world-space transform of a frame anchor.
pub open spec fn spec_anchor_world_iso(a: Anchor<Iso2>, bodies: Seq<RigidBody>) -> (
    (int, int),
    (int, int),
) {
    match a.body {
        Some(h) => siso_compose(bodies[h as int].position@, a.position@),
        None => a.position@,
    }
}

}
