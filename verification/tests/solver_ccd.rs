//! The accumulated-impulse solver and the translational CCD clamp.

use rigid2d::accumulated_impulse_solver::AccumulatedImpulseSolver;
use rigid2d::ball_in_socket::BallInSocket;
use rigid2d::anchor::Anchor;
use rigid2d::body::RigidBody;
use rigid2d::ccd::{TranslationalCCDMotionClamping, min_toi_fold};
use rigid2d::constraint::{Constraint, Contact};
use rigid2d::correction::CorrectionMode;
use rigid2d::fixed::Fixed;
use rigid2d::alg::{V2, Iso2};
use rigid2d::fx::{FX_ONE, SCALE};

fn wall_at(x: i64) -> RigidBody {
    let mut b = RigidBody::new(
        Iso2::identity(),
        V2 { x: 0, y: 0 },
        0,
        0,
        FX_ONE,
        0,
        false,
        None,
    );
    b.position.tr = V2 { x, y: 0 };
    b
}

fn ball_at(x: i64) -> RigidBody {
    let mut b = RigidBody::new(
        Iso2::identity(),
        V2 { x: 0, y: 0 },
        FX_ONE,
        FX_ONE,
        FX_ONE,
        0,
        true,
        None,
    );
    b.position.tr = V2 { x, y: 0 };
    b
}

fn solver_one_sweep() -> AccumulatedImpulseSolver {
    // velocity-only correction with a trigger depth far above any test
    // contact, so pure restitution drives the objective
    AccumulatedImpulseSolver::new(
        16_667,
        CorrectionMode::Velocity(0, 10 * SCALE),
        0,
        0,
        0,
        1,
    )
}

#[test]
fn empty_constraint_set_is_a_no_op() {
    let mut solver = solver_one_sweep();
    let mut bodies = vec![wall_at(0), ball_at(SCALE)];
    bodies[1].lin_vel = V2 { x: -2 * SCALE, y: 0 };
    let before = bodies.clone();
    let bis: Vec<BallInSocket> = Vec::new();
    let fixeds: Vec<Fixed> = Vec::new();
    solver.solve(16_667, &Vec::new(), &mut bodies, &bis, &fixeds);
    // bit-identical bodies, impulse cache generation kept
    assert_eq!(bodies, before);
    assert_eq!(solver.cache.prev_keys.len(), 0);
}

#[test]
fn head_on_elastic_contact_reflects_the_velocity_exactly() {
    let mut solver = solver_one_sweep();
    let mut bodies = vec![wall_at(0), ball_at(0)];
    bodies[1].lin_vel = V2 { x: -2 * SCALE, y: 0 };
    let contact = Contact {
        world1: V2 { x: 0, y: 0 },
        world2: V2 { x: 0, y: 0 },
        normal: V2 { x: FX_ONE, y: 0 },
        depth: 0,
    };
    let constraints = vec![Constraint::RBRB(0, 1, contact)];
    let bis: Vec<BallInSocket> = Vec::new();
    let fixeds: Vec<Fixed> = Vec::new();
    solver.solve(16_667, &constraints, &mut bodies, &bis, &fixeds);
    // unit inverse mass, restitution one: the approach velocity reflects
    assert_eq!(bodies[1].lin_vel, V2 { x: 2 * SCALE, y: 0 });
    assert_eq!(bodies[1].ang_vel, 0);
    // the immovable wall is untouched but for its parked index
    assert_eq!(bodies[0].lin_vel, V2 { x: 0, y: 0 });
    assert_eq!(bodies[0].index, -1);
    assert!(bodies[1].index >= 0);
    // the contact is fingerprinted for the next tick's warm start
    assert_eq!(solver.cache.prev_keys.len(), 1);
}

#[test]
fn contact_between_two_immovable_bodies_changes_no_velocity() {
    let mut solver = solver_one_sweep();
    let mut bodies = vec![wall_at(0), wall_at(SCALE)];
    let contact = Contact {
        world1: V2 { x: 0, y: 0 },
        world2: V2 { x: 0, y: 0 },
        normal: V2 { x: FX_ONE, y: 0 },
        depth: 0,
    };
    let constraints = vec![Constraint::RBRB(0, 1, contact)];
    let bis: Vec<BallInSocket> = Vec::new();
    let fixeds: Vec<Fixed> = Vec::new();
    let before_vel = (bodies[0].lin_vel, bodies[1].lin_vel, bodies[0].position, bodies[1].position);
    solver.solve(16_667, &constraints, &mut bodies, &bis, &fixeds);
    assert_eq!(bodies[0].lin_vel, before_vel.0);
    assert_eq!(bodies[1].lin_vel, before_vel.1);
    assert_eq!(bodies[0].position, before_vel.2);
    assert_eq!(bodies[1].position, before_vel.3);
    // yet the contact is preserved in the impulse cache
    assert_eq!(solver.cache.prev_keys.len(), 1);
}

#[test]
fn ball_in_socket_cancels_relative_anchor_velocity() {
    let mut solver = solver_one_sweep();
    let mut bodies = vec![wall_at(0), ball_at(0)];
    bodies[1].lin_vel = V2 { x: 3 * SCALE, y: 0 };
    let bis = vec![BallInSocket::new(
        Anchor { body: Some(0), position: V2 { x: 0, y: 0 } },
        Anchor { body: Some(1), position: V2 { x: 0, y: 0 } },
    )];
    let fixeds: Vec<Fixed> = Vec::new();
    let constraints = vec![Constraint::BallInSocket(0)];
    solver.solve(16_667, &constraints, &mut bodies, &bis, &fixeds);
    // one sweep of the single joint row zeroes the anchor's drift
    assert_eq!(bodies[1].lin_vel, V2 { x: 0, y: 0 });
}

#[test]
fn warm_start_carries_damped_impulses_across_ticks() {
    let mut solver = solver_one_sweep();
    let mut bodies = vec![wall_at(0), ball_at(0)];
    bodies[1].lin_vel = V2 { x: -2 * SCALE, y: 0 };
    let contact = Contact {
        world1: V2 { x: 0, y: 0 },
        world2: V2 { x: 0, y: 0 },
        normal: V2 { x: FX_ONE, y: 0 },
        depth: 0,
    };
    let constraints = vec![Constraint::RBRB(0, 1, contact)];
    let bis: Vec<BallInSocket> = Vec::new();
    let fixeds: Vec<Fixed> = Vec::new();
    solver.solve(16_667, &constraints, &mut bodies, &bis, &fixeds);
    // the solved normal impulse was four, stored damped by 0.85
    assert_eq!(solver.cache.prev_imps.len(), 1);
    assert_eq!(solver.cache.prev_imps[0].0, 3_400_000);
    assert_eq!(solver.cache.prev_imps[0].1, 0);
}

#[test]
fn earliest_impact_time_wins_the_scan() {
    let tois: Vec<i64> = vec![500_000, 200_000, 800_000];
    assert_eq!(min_toi_fold(&tois, true), (true, 200_000));
    let none: Vec<i64> = Vec::new();
    assert_eq!(min_toi_fold(&none, true), (false, FX_ONE));
    // a zero-time impact is flagged but honoured only while accepted
    let zeros: Vec<i64> = vec![0];
    assert_eq!(min_toi_fold(&zeros, false), (true, FX_ONE));
    assert_eq!(min_toi_fold(&zeros, true), (true, 0));
}

#[test]
fn fast_body_is_rewound_to_its_impact() {
    let mut bodies = vec![ball_at(0), wall_at(5 * SCALE)];
    let mut ccd = TranslationalCCDMotionClamping::new();
    ccd.add_ccd_to(&bodies, 0, 500_000);
    // the body tunnels ten units past the wall in one step
    bodies[0].position.tr = V2 { x: 10 * SCALE, y: 0 };
    // the caller's geometry queries found an impact at a tenth of the step
    let tois = vec![vec![100_000i64]];
    let refresh = ccd.update(&mut bodies, &tois);
    assert!(refresh);
    assert_eq!(bodies[0].position.tr, V2 { x: SCALE, y: 0 });
    // the record now agrees with the body's position
    assert_eq!(ccd.objects[0].last_pos, V2 { x: SCALE, y: 0 });
    assert!(!ccd.objects[0].accept_zero);
}

#[test]
fn unregistered_body_tunnels_straight_through() {
    let mut bodies = vec![ball_at(0), wall_at(5 * SCALE)];
    let mut ccd = TranslationalCCDMotionClamping::new();
    bodies[0].position.tr = V2 { x: 10 * SCALE, y: 0 };
    let tois: Vec<Vec<i64>> = Vec::new();
    let refresh = ccd.update(&mut bodies, &tois);
    assert!(!refresh);
    assert_eq!(bodies[0].position.tr, V2 { x: 10 * SCALE, y: 0 });
}

#[test]
fn slow_motion_skips_the_clamp_but_tracks_position() {
    let mut bodies = vec![ball_at(0)];
    let mut ccd = TranslationalCCDMotionClamping::new();
    ccd.add_ccd_to(&bodies, 0, 2 * SCALE);
    bodies[0].position.tr = V2 { x: SCALE, y: 0 };
    let tois = vec![Vec::<i64>::new()];
    let refresh = ccd.update(&mut bodies, &tois);
    assert!(!refresh);
    assert_eq!(bodies[0].position.tr, V2 { x: SCALE, y: 0 });
    assert_eq!(ccd.objects[0].last_pos, V2 { x: SCALE, y: 0 });
}

#[test]
fn removing_ccd_forgets_the_body() {
    let bodies = vec![ball_at(0), ball_at(SCALE)];
    let mut ccd = TranslationalCCDMotionClamping::new();
    ccd.add_ccd_to(&bodies, 0, 500_000);
    ccd.add_ccd_to(&bodies, 1, 500_000);
    ccd.remove_ccd_from(0);
    assert_eq!(ccd.objects.len(), 1);
    assert_eq!(ccd.objects[0].body, 1);
}

#[test]
fn positional_pass_pushes_a_deep_contact_out() {
    // both passes enabled: no velocity bias, positional factor 0.2,
    // trigger depth 0.1; a resting contact of depth 0.5 over a unit step
    // must move the ball by 0.2 * (0.5 - 0.1) = 0.08
    let mut solver = AccumulatedImpulseSolver::new(
        FX_ONE,
        CorrectionMode::VelocityAndPosition(0, 200_000, 100_000),
        0,
        0,
        1,
        1,
    );
    let mut bodies = vec![wall_at(0), ball_at(0)];
    let contact = Contact {
        world1: V2 { x: 0, y: 0 },
        world2: V2 { x: 0, y: 0 },
        normal: V2 { x: FX_ONE, y: 0 },
        depth: 500_000,
    };
    let constraints = vec![Constraint::RBRB(0, 1, contact)];
    let bis: Vec<BallInSocket> = Vec::new();
    let fixeds: Vec<Fixed> = Vec::new();
    solver.solve(FX_ONE, &constraints, &mut bodies, &bis, &fixeds);
    // the correction is a transform delta, not a velocity change
    assert_eq!(bodies[1].lin_vel, V2 { x: 0, y: 0 });
    assert_eq!(bodies[1].position.tr, V2 { x: 80_000, y: 0 });
    assert_eq!(bodies[0].position.tr, V2 { x: 0, y: 0 });
}

#[test]
fn friction_is_bounded_by_the_cone_of_the_normal_impulse() {
    // normal impulse four, friction coefficient 0.4 * 0.4 = 0.16:
    // the tangential correction is capped at 0.64 of the tangential drift
    let mut solver = solver_one_sweep();
    let mut bodies = vec![wall_at(0), ball_at(0)];
    bodies[0].friction = 400_000;
    bodies[1].friction = 400_000;
    bodies[1].lin_vel = V2 { x: -2 * SCALE, y: SCALE };
    let contact = Contact {
        world1: V2 { x: 0, y: 0 },
        world2: V2 { x: 0, y: 0 },
        normal: V2 { x: FX_ONE, y: 0 },
        depth: 0,
    };
    let constraints = vec![Constraint::RBRB(0, 1, contact)];
    let bis: Vec<BallInSocket> = Vec::new();
    let fixeds: Vec<Fixed> = Vec::new();
    solver.solve(16_667, &constraints, &mut bodies, &bis, &fixeds);
    assert_eq!(bodies[1].lin_vel, V2 { x: 2 * SCALE, y: 360_000 });
}
