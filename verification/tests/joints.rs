//! The joint manager: table and reverse index, reconciliation, wake-ups.

use rigid2d::activation_manager::ActivationManager;
use rigid2d::anchor::Anchor;
use rigid2d::ball_in_socket::BallInSocket;
use rigid2d::body::{ActivationState, RigidBody};
use rigid2d::constraint::Constraint;
use rigid2d::fixed::Fixed;
use rigid2d::joint_manager::JointManager;
use rigid2d::alg::{V2, Iso2};
use rigid2d::fx::FX_ONE;

fn sleeping_body() -> RigidBody {
    let mut b = RigidBody::new(
        Iso2::identity(),
        V2 { x: 0, y: 0 },
        FX_ONE,
        FX_ONE,
        0,
        0,
        true,
        Some(100_000),
    );
    b.state = ActivationState::Inactive;
    b
}

#[test]
fn adding_a_joint_indexes_and_wakes_both_bodies() {
    let bodies = vec![sleeping_body(), sleeping_body()];
    let bis = vec![BallInSocket::new(
        Anchor { body: Some(0), position: V2 { x: 0, y: 0 } },
        Anchor { body: Some(1), position: V2 { x: 0, y: 0 } },
    )];
    let fixeds: Vec<Fixed> = Vec::new();
    let mut act = ActivationManager::new(500_000);
    let mut jm = JointManager::new();
    jm.add_ball_in_socket(0, &bis, &fixeds, &bodies, &mut act);
    assert_eq!(jm.joints.len(), 1);
    assert!(matches!(jm.joints[0].1, Constraint::BallInSocket(0)));
    assert_eq!(act.to_activate, vec![0usize, 1usize]);
    let l0 = jm.joints_with_body(0).expect("body 0 has a list");
    assert_eq!(l0.len(), 1);
    let l1 = jm.joints_with_body(1).expect("body 1 has a list");
    assert_eq!(l1.len(), 1);
    // adding the same joint again changes nothing
    jm.add_ball_in_socket(0, &bis, &fixeds, &bodies, &mut act);
    assert_eq!(jm.joints.len(), 1);
    assert_eq!(jm.joints_with_body(0).unwrap().len(), 1);
}

#[test]
fn add_then_remove_leaves_no_dangling_reverse_entries() {
    let bodies = vec![sleeping_body(), sleeping_body()];
    let bis = vec![BallInSocket::new(
        Anchor { body: Some(0), position: V2 { x: 0, y: 0 } },
        Anchor { body: Some(1), position: V2 { x: 0, y: 0 } },
    )];
    let fixeds: Vec<Fixed> = Vec::new();
    let mut act = ActivationManager::new(500_000);
    let mut jm = JointManager::new();
    jm.add_ball_in_socket(0, &bis, &fixeds, &bodies, &mut act);
    jm.remove_ball_in_socket(0, &bis, &fixeds, &bodies, &mut act);
    assert_eq!(jm.joints.len(), 0);
    assert_eq!(jm.joints_with_body(0).unwrap().len(), 0);
    assert_eq!(jm.joints_with_body(1).unwrap().len(), 0);
}

#[test]
fn removing_by_body_purges_every_touching_joint() {
    let bodies = vec![sleeping_body(), sleeping_body(), sleeping_body()];
    let bis = vec![BallInSocket::new(
        Anchor { body: Some(0), position: V2 { x: 0, y: 0 } },
        Anchor { body: Some(1), position: V2 { x: 0, y: 0 } },
    )];
    let fixeds = vec![Fixed::new(
        Anchor { body: Some(1), position: Iso2::identity() },
        Anchor { body: Some(2), position: Iso2::identity() },
    )];
    let mut act = ActivationManager::new(500_000);
    let mut jm = JointManager::new();
    jm.add_ball_in_socket(0, &bis, &fixeds, &bodies, &mut act);
    jm.add_fixed(0, &bis, &fixeds, &bodies, &mut act);
    assert_eq!(jm.joints.len(), 2);
    jm.remove(1, &bis, &fixeds, &bodies, &mut act);
    assert_eq!(jm.joints.len(), 0);
    assert_eq!(jm.joints_with_body(0).unwrap().len(), 0);
    assert_eq!(jm.joints_with_body(1).unwrap().len(), 0);
    assert_eq!(jm.joints_with_body(2).unwrap().len(), 0);
}

#[test]
fn update_with_no_edits_schedules_no_wake_ups() {
    let bodies = vec![sleeping_body(), sleeping_body()];
    let mut bis = vec![BallInSocket::new(
        Anchor { body: Some(0), position: V2 { x: 0, y: 0 } },
        Anchor { body: Some(1), position: V2 { x: 0, y: 0 } },
    )];
    let mut fixeds: Vec<Fixed> = Vec::new();
    let mut act = ActivationManager::new(500_000);
    let mut jm = JointManager::new();
    jm.add_ball_in_socket(0, &bis, &fixeds, &bodies, &mut act);
    act.to_activate.clear();
    // first reconciliation marks the joint up to date and wakes its bodies
    jm.update(&mut bis, &mut fixeds, &bodies, &mut act);
    assert!(bis[0].up_to_date());
    act.to_activate.clear();
    // from now on, repeated updates are a no-op
    for _ in 0..3 {
        jm.update(&mut bis, &mut fixeds, &bodies, &mut act);
        assert_eq!(act.to_activate.len(), 0);
        assert!(bis[0].up_to_date());
    }
}

#[test]
fn editing_a_fixed_joint_wakes_both_sleeping_bodies() {
    let mut bodies = vec![sleeping_body(), sleeping_body()];
    let bis: Vec<BallInSocket> = Vec::new();
    let mut bis_mut = bis.clone();
    let mut fixeds = vec![Fixed::new(
        Anchor { body: Some(0), position: Iso2::identity() },
        Anchor { body: Some(1), position: Iso2::identity() },
    )];
    let mut act = ActivationManager::new(500_000);
    let mut jm = JointManager::new();
    jm.add_fixed(0, &bis, &fixeds, &bodies, &mut act);
    act.to_activate.clear();
    fixeds[0].update();
    // a user edit invalidates the joint
    let moved = Iso2 { rot: rigid2d::alg::Rot2::identity(), tr: V2 { x: FX_ONE, y: 0 } };
    fixeds[0].set_local1(moved);
    assert!(!fixeds[0].up_to_date());
    jm.update(&mut bis_mut, &mut fixeds, &bodies, &mut act);
    assert!(fixeds[0].up_to_date());
    assert_eq!(act.to_activate, vec![0usize, 1usize]);
    // the next activation pass turns the schedule into wakefulness
    act.update(&mut bodies, &Vec::new(), &jm, &bis_mut, &fixeds);
    assert!(matches!(bodies[0].state, ActivationState::Active(_)));
    assert!(matches!(bodies[1].state, ActivationState::Active(_)));
}

#[test]
fn interferences_emits_every_joint_constraint() {
    let bodies = vec![sleeping_body(), sleeping_body()];
    let bis = vec![BallInSocket::new(
        Anchor { body: Some(0), position: V2 { x: 0, y: 0 } },
        Anchor { body: Some(1), position: V2 { x: 0, y: 0 } },
    )];
    let fixeds = vec![Fixed::new(
        Anchor { body: Some(0), position: Iso2::identity() },
        Anchor { body: None, position: Iso2::identity() },
    )];
    let mut act = ActivationManager::new(500_000);
    let mut jm = JointManager::new();
    jm.add_ball_in_socket(0, &bis, &fixeds, &bodies, &mut act);
    jm.add_fixed(0, &bis, &fixeds, &bodies, &mut act);
    let mut out: Vec<Constraint> = Vec::new();
    jm.interferences(&mut out);
    assert_eq!(out.len(), 2);
    assert!(matches!(out[0], Constraint::BallInSocket(0)));
    assert!(matches!(out[1], Constraint::Fixed(0)));
}

#[test]
fn world_anchored_joint_wakes_only_its_attached_body() {
    let bodies = vec![sleeping_body()];
    let bis = vec![BallInSocket::new(
        Anchor { body: Some(0), position: V2 { x: 0, y: 0 } },
        Anchor { body: None, position: V2 { x: FX_ONE, y: 0 } },
    )];
    let fixeds: Vec<Fixed> = Vec::new();
    let mut act = ActivationManager::new(500_000);
    let mut jm = JointManager::new();
    jm.add_ball_in_socket(0, &bis, &fixeds, &bodies, &mut act);
    assert_eq!(act.to_activate, vec![0usize]);
    assert_eq!(jm.joints_with_body(0).unwrap().len(), 1);
}
