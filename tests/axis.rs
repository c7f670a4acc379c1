use ev3dlib::extruder::Extruder;
use ev3dlib::motor::{CalibrationAction, CalibrationEvent, CalibrationState, Motor};

fn axis(ratio: i64, cal_params: (i64, bool, bool)) -> Motor {
    Motor::new(360, ratio, cal_params, 10_000_000).unwrap()
}

#[test]
fn ticks_of_whole_millimetres() {
    let m = axis(5_000_000, (0, false, false));
    assert_eq!(m.mm_to_tacho(1_000_000), Some(5));
    assert_eq!(m.mm_to_tacho(-20_400_000), Some(-102));
    assert_eq!(m.mm_to_tacho(0), Some(0));
}

#[test]
fn ticks_round_half_away_from_zero() {
    let m = axis(1_000_000, (0, false, false));
    assert_eq!(m.mm_to_tacho(500_000), Some(1));
    assert_eq!(m.mm_to_tacho(-500_000), Some(-1));
    assert_eq!(m.mm_to_tacho(400_000), Some(0));
    assert_eq!(m.mm_to_tacho(1_600_000), Some(2));
}

#[test]
fn ticks_use_encoder_resolution() {
    let m = Motor::new(720, 14_062_500, (0, false, false), 1_000_000).unwrap();
    // 2 mm * 14.0625 deg/mm * 720 / 360 = 56.25
    assert_eq!(m.mm_to_tacho(2_000_000), Some(56));
}

#[test]
fn ticks_too_large_for_driver() {
    let m = axis(1_000_000_000, (0, false, false));
    assert_eq!(m.mm_to_tacho(1_000_000_000_000_000), None);
}

#[test]
fn motor_rejects_bad_parameters() {
    assert!(Motor::new(0, 1_000_000, (0, false, false), 1_000_000).is_none());
    assert!(Motor::new(360, 20_000_000_000, (0, false, false), 1_000_000).is_none());
    assert!(Motor::new(2_000_000, 1_000_000, (0, false, false), 1_000_000).is_none());
    assert!(Motor::new(360, 1_000_000, (0, false, false), 1_000_000).is_some());
}

#[test]
fn extruder_ticks() {
    let e = Extruder::new(360, 9_817_477).unwrap();
    assert_eq!(e.mm_to_tacho(10_000_000), Some(98));
    assert_eq!(e.mm_to_tacho(0), Some(0));
    assert!(Extruder::new(0, 9_817_477).is_none());
}

#[test]
fn wait_for_press_normalises_polarity() {
    let m = axis(1_000_000, (0, false, false));
    assert!(m.wait_for_press(true, false));
    assert!(!m.wait_for_press(false, false));
    assert!(m.wait_for_press(false, true));
    assert!(!m.wait_for_press(true, true));
}

fn run(m: &Motor, events: &[CalibrationEvent]) -> (CalibrationState, Vec<CalibrationAction>) {
    let mut s = CalibrationState::Idle;
    let mut actions = Vec::new();
    for e in events {
        let (n, a) = m.calibrate(s, *e);
        s = n;
        actions.push(a);
    }
    (s, actions)
}

#[test]
fn homing_plain_polarity() {
    let m = axis(5_000_000, (-20_400_000, false, false));
    let (s, a) = run(
        &m,
        &[
            CalibrationEvent::Begin,
            CalibrationEvent::Sensor(false),
            CalibrationEvent::Sensor(true),
            CalibrationEvent::Sensor(true),
            CalibrationEvent::Sensor(false),
            CalibrationEvent::Completed,
        ],
    );
    assert_eq!(s, CalibrationState::Homed);
    assert_eq!(
        a,
        vec![
            CalibrationAction::Run(50),
            CalibrationAction::Poll,
            CalibrationAction::Run(-50),
            CalibrationAction::Poll,
            CalibrationAction::Stop,
            CalibrationAction::MoveAndZero(-102),
        ]
    );
}

#[test]
fn homing_inverted_motor_and_sensor() {
    let m = axis(5_000_000, (-20_400_000, true, true));
    let (s, a) = run(
        &m,
        &[
            CalibrationEvent::Begin,
            CalibrationEvent::Sensor(true),
            CalibrationEvent::Sensor(false),
            CalibrationEvent::Sensor(true),
            CalibrationEvent::Completed,
        ],
    );
    assert_eq!(s, CalibrationState::Homed);
    assert_eq!(
        a,
        vec![
            CalibrationAction::Run(-50),
            CalibrationAction::Poll,
            CalibrationAction::Run(50),
            CalibrationAction::Stop,
            CalibrationAction::MoveAndZero(-102),
        ]
    );
}

#[test]
fn homing_not_done_before_release() {
    let m = axis(5_000_000, (0, false, false));
    let (s, _) = run(
        &m,
        &[CalibrationEvent::Begin, CalibrationEvent::Sensor(true), CalibrationEvent::Completed],
    );
    assert_eq!(s, CalibrationState::Backoff);
    let (s, a) = run(&m, &[CalibrationEvent::Sensor(true)]);
    assert_eq!(s, CalibrationState::Idle);
    assert_eq!(a, vec![CalibrationAction::Nothing]);
}
