//! A 2D rigid-body physics core: an accumulated-impulse constraint solver
//! with warm-starting, island-based sleep management, a joint manager with a
//! per-body reverse index, and translational continuous-collision clamping.
//!
//! All arithmetic is saturating fixed-point over `i64` (one unit is `SCALE`
//! raw steps), so every operation is total and exactly specified. Geometry
//! queries (broad phase, narrow phase, time-of-impact) are external
//! collaborators: the caller performs them and hands their results in as
//! plain values.

pub mod fx;
pub mod alg;
pub mod body;
pub mod constraint;
pub mod union_find;
pub mod anchor;
pub mod ball_in_socket;
pub mod fixed;
pub mod activation_manager;
pub mod joint_manager;
pub mod ccd;
pub mod velocity_constraint;
pub mod pgs;
pub mod correction;
pub mod contact_equation;
pub mod joint_equation;
pub mod impulse_cache;
pub mod accumulated_impulse_solver;
