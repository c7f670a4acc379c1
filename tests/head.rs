use ev3dlib::extruder::Extruder;
use ev3dlib::motor::{CalibrationAction, CalibrationEvent, CalibrationState, Motor};
use ev3dlib::printhead::{
    AxisId, LinearMoveCommand, MoveError, MovePlan, Point, Position, PositioningMode, PrintHead,
};

fn head() -> PrintHead {
    let x = Motor::new(360, 5_000_000, (0, true, false), 10_000_000).unwrap();
    let y = Motor::new(360, 5_000_000, (-20_400_000, true, true), 10_000_000).unwrap();
    let z = Motor::new(360, 240_000_000, (0, true, false), 1_000_000).unwrap();
    let e = Extruder::new(360, 9_817_477).unwrap();
    PrintHead::new(x, y, z, e)
}

fn to(x: Option<i64>, y: Option<i64>, z: Option<i64>) -> LinearMoveCommand {
    LinearMoveCommand { point: Some(Point { x, y, z }), feed_rate: None, extruded: None }
}

fn run(h: &mut PrintHead, cmd: LinearMoveCommand) -> Option<MovePlan> {
    let plan = h.linear_move(cmd).unwrap();
    if let Some(p) = &plan {
        h.complete_move(p);
    }
    plan
}

#[test]
fn new_head_defaults() {
    let h = head();
    assert_eq!(h.position, Position { x: 0, y: 0, z: 0 });
    assert_eq!(h.velocity, 20_000_000);
    assert_eq!(h.positioning, PositioningMode::Absolute);
}

#[test]
fn straight_move_along_x() {
    let mut h = head();
    let target = Position { x: 10_000_000, y: 0, z: 0 };
    let r = h.linear_move(to(Some(10_000_000), None, None));
    let plan = MovePlan { x_rate: 100, y_rate: 0, z_rate: 0, e_rate: None, duration_us: 500_000, target };
    assert_eq!(r, Ok(Some(plan)));
    assert_eq!(h.position, Position { x: 0, y: 0, z: 0 });
    h.complete_move(&plan);
    assert_eq!(h.position, target);
}

#[test]
fn diagonal_move_splits_velocity() {
    let mut h = head();
    let r = h.linear_move(to(Some(3_000_000), Some(4_000_000), None));
    assert_eq!(
        r,
        Ok(Some(MovePlan {
            x_rate: 60,
            y_rate: 80,
            z_rate: 0,
            e_rate: None,
            duration_us: 250_000,
            target: Position { x: 3_000_000, y: 4_000_000, z: 0 },
        }))
    );
}

#[test]
fn extrusion_rate_follows_duration() {
    let mut h = head();
    let cmd = LinearMoveCommand {
        point: Some(Point { x: Some(10_000_000), y: None, z: None }),
        feed_rate: None,
        extruded: Some(5_000_000),
    };
    let plan = h.linear_move(cmd).unwrap().unwrap();
    assert_eq!(plan.e_rate, Some(98));
    assert_eq!(plan.duration_us, 500_000);
}

#[test]
fn absolute_move_clamped_to_envelope() {
    let mut h = head();
    run(&mut h, to(Some(150_000_000), Some(-300_000_000), Some(200_000_000)));
    assert_eq!(h.position, Position { x: 100_000_000, y: -100_000_000, z: 200_000_000 });
}

#[test]
fn move_to_current_position_is_noop() {
    let mut h = head();
    run(&mut h, to(Some(10_000_000), Some(5_000_000), None));
    let before = h.position;
    let r = h.linear_move(to(Some(10_000_000), Some(5_000_000), Some(0)));
    assert_eq!(r, Ok(None));
    assert_eq!(h.position, before);
}

#[test]
fn move_without_point_only_sets_feed() {
    let mut h = head();
    let cmd = LinearMoveCommand { point: None, feed_rate: Some(5_000_000), extruded: None };
    assert_eq!(h.linear_move(cmd), Ok(None));
    assert_eq!(h.velocity, 5_000_000);
    assert_eq!(h.position, Position { x: 0, y: 0, z: 0 });
}

#[test]
fn feed_rate_replaces_default() {
    let mut h = head();
    let cmd = LinearMoveCommand {
        point: Some(Point { x: Some(10_000_000), y: None, z: None }),
        feed_rate: Some(10_000_000),
        extruded: None,
    };
    let plan = h.linear_move(cmd).unwrap().unwrap();
    assert_eq!(plan.x_rate, 50);
    assert_eq!(plan.duration_us, 1_000_000);
    assert_eq!(h.velocity, 10_000_000);
}

#[test]
fn zero_feed_rate_refused() {
    let mut h = head();
    let cmd = LinearMoveCommand {
        point: Some(Point { x: Some(1_000_000), y: None, z: None }),
        feed_rate: Some(0),
        extruded: None,
    };
    assert_eq!(h.linear_move(cmd), Err(MoveError::InvalidFeedRate));
    assert_eq!(h.velocity, 20_000_000);
}

#[test]
fn relative_moves_accumulate() {
    let mut h = head();
    h.set_position_mode(PositioningMode::Relative);
    run(&mut h, to(Some(150_000_000), None, None));
    run(&mut h, to(Some(-20_000_000), Some(7_000_000), None));
    assert_eq!(h.position, Position { x: 130_000_000, y: 7_000_000, z: 0 });
}

#[test]
fn relative_move_beyond_range_refused() {
    let mut h = head();
    h.set_position_mode(PositioningMode::Relative);
    run(&mut h, to(Some(4_000_000_000_000_000_000), None, None));
    let r = h.linear_move(to(Some(1_000_000_000_000_000_000), None, None));
    assert_eq!(r, Err(MoveError::OutOfRange));
    assert_eq!(h.position.x, 4_000_000_000_000_000_000);
}

#[test]
fn steep_z_move_rate_too_large() {
    let mut h = head();
    let r = h.linear_move(to(Some(1), None, Some(1_000_000_000_000)));
    assert_eq!(r, Err(MoveError::RateOutOfRange));
    assert_eq!(h.position, Position { x: 0, y: 0, z: 0 });
}

#[test]
fn mode_toggle_idempotent_and_still() {
    let mut h = head();
    run(&mut h, to(Some(10_000_000), None, None));
    h.set_position_mode(PositioningMode::Relative);
    let once = (h.position, h.velocity, h.positioning);
    h.set_position_mode(PositioningMode::Relative);
    assert_eq!((h.position, h.velocity, h.positioning), once);
    assert_eq!(h.position, Position { x: 10_000_000, y: 0, z: 0 });
}

#[test]
fn set_velocity_changes_feed() {
    let mut h = head();
    h.set_velocity(7_000_000);
    assert_eq!(h.velocity, 7_000_000);
}

#[test]
fn calibration_order_and_dispatch() {
    let h = head();
    assert_eq!(h.calibration_order(), vec![AxisId::Z, AxisId::X, AxisId::Y]);
    assert_eq!(
        h.calibrate(AxisId::Y, CalibrationState::Idle, CalibrationEvent::Begin),
        (CalibrationState::Seeking, CalibrationAction::Run(-50))
    );
    assert_eq!(
        h.calibrate(AxisId::Z, CalibrationState::Idle, CalibrationEvent::Begin),
        (CalibrationState::Seeking, CalibrationAction::Run(-240))
    );
    assert_eq!(h.axis(AxisId::X).ratio, 5_000_000);
}

#[test]
fn feed_rate_zero_without_destination_is_stored() {
    let mut h = head();
    let cmd = LinearMoveCommand { point: None, feed_rate: Some(0), extruded: Some(5_000_000_000_000) };
    assert_eq!(h.linear_move(cmd), Ok(None));
    assert_eq!(h.velocity, 0);
    let r = h.linear_move(to(Some(1_000_000), None, None));
    assert_eq!(r, Err(MoveError::InvalidFeedRate));
}

#[test]
fn move_to_current_position_with_zero_feed_is_noop() {
    let mut h = head();
    let cmd = LinearMoveCommand {
        point: Some(Point { x: Some(0), y: Some(0), z: None }),
        feed_rate: Some(0),
        extruded: Some(1_000_000),
    };
    assert_eq!(h.linear_move(cmd), Ok(None));
    assert_eq!(h.velocity, 0);
    assert_eq!(h.position, Position { x: 0, y: 0, z: 0 });
}

#[test]
fn fast_feed_and_long_moves_accepted() {
    let mut h = head();
    h.set_position_mode(PositioningMode::Relative);
    let cmd = LinearMoveCommand {
        point: Some(Point { x: Some(5_000_000_000), y: None, z: None }),
        feed_rate: Some(2_000_000_000),
        extruded: None,
    };
    let plan = run(&mut h, cmd).unwrap();
    // 2000 mm/s at 5 deg/mm
    assert_eq!(plan.x_rate, 10_000);
    assert_eq!(plan.duration_us, 2_500_000);
    assert_eq!(h.position.x, 5_000_000_000);
}

#[test]
fn planning_leaves_head_unchanged() {
    let h = head();
    let cmd = LinearMoveCommand {
        point: Some(Point { x: Some(10_000_000), y: None, z: None }),
        feed_rate: Some(10_000_000),
        extruded: None,
    };
    let plan = h.plan_linear_move(cmd).unwrap().unwrap();
    assert_eq!(plan.target, Position { x: 10_000_000, y: 0, z: 0 });
    assert_eq!(h.velocity, 20_000_000);
    assert_eq!(h.position, Position { x: 0, y: 0, z: 0 });
}
