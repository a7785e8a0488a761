//! Island-based sleep and wake behaviour of the activation manager.

use rigid2d::activation_manager::ActivationManager;
use rigid2d::body::{ActivationState, RigidBody};
use rigid2d::ball_in_socket::BallInSocket;
use rigid2d::fixed::Fixed;
use rigid2d::joint_manager::JointManager;
use rigid2d::alg::{V2, Iso2};
use rigid2d::fx::{FX_ONE, SCALE};

fn dynamic_body(threshold: Option<i64>) -> RigidBody {
    RigidBody::new(
        Iso2::identity(),
        V2 { x: 0, y: 0 },
        FX_ONE,
        FX_ONE,
        0,
        0,
        true,
        threshold,
    )
}

fn run_update(
    act: &mut ActivationManager,
    bodies: &mut Vec<RigidBody>,
    contacts: &Vec<(usize, usize)>,
) {
    let jm = JointManager::new();
    let bis: Vec<BallInSocket> = Vec::new();
    let fixeds: Vec<Fixed> = Vec::new();
    act.update(bodies, contacts, &jm, &bis, &fixeds);
}

#[test]
fn energy_average_follows_the_mix_formula_exactly() {
    // energy' = (1 - m) * e + m * (|v|^2 + w^2) with m = 1/2:
    // 0.5 * 1.0 + 0.5 * 0.04 = 0.52
    let mut act = ActivationManager::new(500_000);
    let mut b = dynamic_body(Some(400_000));
    b.lin_vel = V2 { x: 200_000, y: 0 };
    let mut bodies = vec![b];
    run_update(&mut act, &mut bodies, &Vec::new());
    assert_eq!(bodies[0].state, ActivationState::Active(520_000));
    assert_eq!(bodies[0].index, 0);
}

#[test]
fn energy_is_clamped_to_four_times_the_threshold() {
    let mut act = ActivationManager::new(500_000);
    let mut b = dynamic_body(Some(SCALE));
    // resting average far above the clamp
    b.state = ActivationState::Active(100 * SCALE);
    b.lin_vel = V2 { x: 10 * SCALE, y: 0 };
    let mut bodies = vec![b];
    run_update(&mut act, &mut bodies, &Vec::new());
    match bodies[0].state {
        ActivationState::Active(e) => assert_eq!(e, 4 * SCALE),
        _ => panic!("body should stay awake"),
    }
}

#[test]
fn body_without_threshold_never_sleeps() {
    let mut act = ActivationManager::new(500_000);
    let mut bodies = vec![dynamic_body(None)];
    for _ in 0..20 {
        run_update(&mut act, &mut bodies, &Vec::new());
        assert_eq!(bodies[0].state, ActivationState::Active(FX_ONE));
    }
}

#[test]
fn quiet_island_falls_asleep_together() {
    let mut act = ActivationManager::new(500_000);
    let mut bodies = vec![dynamic_body(Some(100_000)), dynamic_body(Some(100_000))];
    let contacts = vec![(0usize, 1usize)];
    for _ in 0..5 {
        run_update(&mut act, &mut bodies, &contacts);
    }
    assert_eq!(bodies[0].state, ActivationState::Inactive);
    assert_eq!(bodies[1].state, ActivationState::Inactive);
    // sleeping zeroes the velocities
    assert_eq!(bodies[0].lin_vel, V2 { x: 0, y: 0 });
}

#[test]
fn explicit_wake_raises_energy_to_twice_the_threshold() {
    let mut act = ActivationManager::new(500_000);
    let mut b = dynamic_body(Some(100_000));
    b.state = ActivationState::Inactive;
    let mut bodies = vec![b];
    act.will_activate(&bodies, 0);
    run_update(&mut act, &mut bodies, &Vec::new());
    assert_eq!(bodies[0].state, ActivationState::Active(200_000));
}

#[test]
fn immovable_body_is_not_queued_for_wake_up() {
    let mut act = ActivationManager::new(500_000);
    let mut wall = RigidBody::new(
        Iso2::identity(),
        V2 { x: 0, y: 0 },
        0,
        0,
        0,
        0,
        false,
        Some(100_000),
    );
    wall.state = ActivationState::Inactive;
    let bodies = vec![wall];
    act.will_activate(&bodies, 0);
    assert_eq!(act.to_activate.len(), 0);
}

#[test]
fn separate_islands_sleep_and_wake_independently() {
    let tau: i64 = 100_000;
    let mut act = ActivationManager::new(500_000);
    let mut bodies = vec![
        dynamic_body(Some(tau)),
        dynamic_body(Some(tau)),
        dynamic_body(Some(tau)),
        dynamic_body(Some(tau)),
    ];
    // stack A is bodies 0-1, stack B is bodies 2-3
    let contacts = vec![(0usize, 1usize), (2usize, 3usize)];
    for _ in 0..6 {
        run_update(&mut act, &mut bodies, &contacts);
    }
    for b in bodies.iter() {
        assert_eq!(b.state, ActivationState::Inactive);
    }
    // poking stack B wakes only stack B
    act.will_activate(&bodies, 2);
    run_update(&mut act, &mut bodies, &contacts);
    assert_eq!(bodies[0].state, ActivationState::Inactive);
    assert_eq!(bodies[1].state, ActivationState::Inactive);
    assert_eq!(bodies[2].state, ActivationState::Active(2 * tau));
    assert_eq!(bodies[3].state, ActivationState::Active(2 * tau));
    // a contact bridging the stacks wakes all of A within one tick
    let bridged = vec![(0usize, 1usize), (2usize, 3usize), (1usize, 2usize)];
    run_update(&mut act, &mut bodies, &bridged);
    for b in bodies.iter() {
        assert!(matches!(b.state, ActivationState::Active(_)));
    }
}

#[test]
fn joint_edges_bind_islands() {
    // an awake, lively body keeps its jointed partner awake
    let tau: i64 = 100_000;
    let mut act = ActivationManager::new(500_000);
    let mut lively = dynamic_body(Some(tau));
    lively.lin_vel = V2 { x: SCALE, y: 0 };
    let mut bodies = vec![lively, dynamic_body(Some(tau))];
    let mut bis = vec![BallInSocket::new(
        rigid2d::anchor::Anchor { body: Some(0), position: V2 { x: 0, y: 0 } },
        rigid2d::anchor::Anchor { body: Some(1), position: V2 { x: 0, y: 0 } },
    )];
    let fixeds: Vec<Fixed> = Vec::new();
    let mut jm = JointManager::new();
    jm.add_ball_in_socket(0, &bis, &fixeds, &bodies, &mut act);
    // keep the joint reconciled so only the island logic is at work
    bis[0].update();
    for _ in 0..8 {
        act.update(&mut bodies, &Vec::new(), &jm, &bis, &fixeds);
        // the lively body's velocity keeps feeding energy above threshold,
        // so neither island member may sleep
        assert!(matches!(bodies[0].state, ActivationState::Active(_)));
        assert!(matches!(bodies[1].state, ActivationState::Active(_)));
    }
}
