use ev3dlib::gcode::{
    parse_gcode_lines, parse_line, run_gcode, tokenize, ExecError, Instruction, ParseError,
    ParseErrorKind, Step,
};
use ev3dlib::motor::Motor;
use ev3dlib::extruder::Extruder;
use ev3dlib::number::parse_decimal;
use ev3dlib::printhead::{LinearMoveCommand, MovePlan, Point, Position, PositioningMode, PrintHead};

fn value(s: &str) -> Option<i64> {
    let chars: Vec<char> = s.chars().collect();
    parse_decimal(&chars, 0)
}

#[test]
fn decimal_literals() {
    assert_eq!(value("10"), Some(10_000_000));
    assert_eq!(value("-5"), Some(-5_000_000));
    assert_eq!(value("+3"), Some(3_000_000));
    assert_eq!(value("20.0"), Some(20_000_000));
    assert_eq!(value(".5"), Some(500_000));
    assert_eq!(value("1."), Some(1_000_000));
    assert_eq!(value("-0.0000015"), Some(-1));
    assert_eq!(value("9.8174770425"), Some(9_817_477));
    assert_eq!(value("1000000000"), Some(1_000_000_000_000_000));
    assert_eq!(value("10000000000"), Some(10_000_000_000_000_000));
}

#[test]
fn decimal_literals_with_exponent() {
    assert_eq!(value("1e3"), Some(1_000_000_000));
    assert_eq!(value("1.5E-3"), Some(1_500));
    assert_eq!(value("-2e+2"), Some(-200_000_000));
    assert_eq!(value(".25e1"), Some(2_500_000));
    assert_eq!(value("1e-7"), Some(0));
    assert_eq!(value("0e99999999999999999999999"), Some(0));
    assert_eq!(value("5e-99999999999999999999999"), Some(0));
    assert_eq!(value("9223372036854.775807"), Some(i64::MAX));
    assert_eq!(value("-9223372036854.775807"), Some(-i64::MAX));
}

#[test]
fn decimal_literals_out_of_range_or_malformed_exponent() {
    assert_eq!(value("9223372036854.775808"), None);
    assert_eq!(value("1e99999999999999999999"), None);
    assert_eq!(value("1e13"), None);
    assert_eq!(value("1e"), None);
    assert_eq!(value("1e+"), None);
    assert_eq!(value("e5"), None);
    assert_eq!(value("1e5.0"), None);
    assert_eq!(value("inf"), None);
    assert_eq!(value("nan"), None);
}

#[test]
fn malformed_decimal_literals() {
    assert_eq!(value(""), None);
    assert_eq!(value("-"), None);
    assert_eq!(value("."), None);
    assert_eq!(value("1.2.3"), None);
    assert_eq!(value("abc"), None);
}

#[test]
fn tokens_split_on_whitespace() {
    let t = tokenize("  G1\tX10   Y2 ");
    let words: Vec<String> = t.iter().map(|w| w.iter().collect()).collect();
    assert_eq!(words, vec!["G1".to_string(), "X10".to_string(), "Y2".to_string()]);
    assert!(tokenize("   ").is_empty());
}

#[test]
fn linear_move_line() {
    let r = parse_line("G1 X10 Y-5 F600");
    assert_eq!(
        r,
        Ok(Some(Instruction::LinearMove(LinearMoveCommand {
            point: Some(Point { x: Some(10_000_000), y: Some(-5_000_000), z: None }),
            feed_rate: Some(10_000_000),
            extruded: None,
        })))
    );
}

#[test]
fn comment_ends_parameters() {
    let r = parse_line("G1 X10 ; comment X99");
    assert_eq!(
        r,
        Ok(Some(Instruction::LinearMove(LinearMoveCommand {
            point: Some(Point { x: Some(10_000_000), y: None, z: None }),
            feed_rate: None,
            extruded: None,
        })))
    );
}

#[test]
fn unknown_opcode_ignored() {
    assert_eq!(parse_line("G2 X1"), Ok(None));
    assert_eq!(parse_line(""), Ok(None));
    assert_eq!(parse_line("; only a comment"), Ok(None));
}

#[test]
fn move_without_coordinates_has_no_point() {
    assert_eq!(
        parse_line("G0 F1200 E5.0"),
        Ok(Some(Instruction::LinearMove(LinearMoveCommand {
            point: None,
            feed_rate: Some(20_000_000),
            extruded: Some(5_000_000),
        })))
    );
}

#[test]
fn positioning_dwell_and_release_lines() {
    assert_eq!(parse_line("G90"), Ok(Some(Instruction::SetPositioning(PositioningMode::Absolute))));
    assert_eq!(parse_line("G91"), Ok(Some(Instruction::SetPositioning(PositioningMode::Relative))));
    assert_eq!(parse_line("G4 P500"), Ok(Some(Instruction::Pause(500_000))));
    assert_eq!(parse_line("G4 S2"), Ok(Some(Instruction::Pause(2_000_000))));
    assert_eq!(parse_line("M18"), Ok(Some(Instruction::Release(true, true, true))));
    assert_eq!(parse_line("M18 X Z"), Ok(Some(Instruction::Release(true, false, true))));
}

#[test]
fn bad_number_is_parse_error() {
    assert_eq!(parse_line("G1 Xabc"), Err(ParseErrorKind::InvalidNumber));
    assert_eq!(parse_line("G1 X"), Err(ParseErrorKind::InvalidNumber));
    let lines = vec!["G90".to_string(), "G1 X1".to_string(), "G1 Yq".to_string()];
    assert_eq!(
        parse_gcode_lines(&lines),
        Err(ParseError { line: 2, kind: ParseErrorKind::InvalidNumber })
    );
}

#[test]
fn program_in_order() {
    let lines = vec![
        "G1 X20.0 Y40.0 F1200 E5.0   ; linear move".to_string(),
        "".to_string(),
        "G91".to_string(),
        "T0".to_string(),
        "G90".to_string(),
    ];
    let prog = parse_gcode_lines(&lines).unwrap();
    assert_eq!(prog.len(), 3);
    assert_eq!(prog[1], Instruction::SetPositioning(PositioningMode::Relative));
    assert_eq!(prog[2], Instruction::SetPositioning(PositioningMode::Absolute));
}

fn head() -> PrintHead {
    let x = Motor::new(360, 5_000_000, (0, true, false), 10_000_000).unwrap();
    let y = Motor::new(360, 5_000_000, (0, true, true), 10_000_000).unwrap();
    let z = Motor::new(360, 240_000_000, (0, true, false), 1_000_000).unwrap();
    let e = Extruder::new(360, 9_817_477).unwrap();
    PrintHead::new(x, y, z, e)
}

#[test]
fn executor_runs_until_unsupported() {
    let lines = vec![
        "G1 X10".to_string(),
        "G4 P100".to_string(),
        "G91".to_string(),
        "G1 X10".to_string(),
        "M18".to_string(),
        "G1 X10".to_string(),
    ];
    let prog = parse_gcode_lines(&lines).unwrap();
    let mut h = head();
    let (steps, err) = run_gcode(&mut h, &prog);
    let first = MovePlan {
        x_rate: 100,
        y_rate: 0,
        z_rate: 0,
        e_rate: None,
        duration_us: 500_000,
        target: Position { x: 10_000_000, y: 0, z: 0 },
    };
    let second = MovePlan { target: Position { x: 20_000_000, y: 0, z: 0 }, ..first };
    assert_eq!(steps, vec![Step::Move(first), Step::Wait(100_000), Step::Move(second)]);
    assert_eq!(err, Some(ExecError::NotImplemented));
    assert_eq!(h.position, Position { x: 20_000_000, y: 0, z: 0 });
    assert_eq!(h.positioning, PositioningMode::Relative);
}

#[test]
fn executor_without_errors() {
    let prog = vec![Instruction::Pause(-5), Instruction::SetPositioning(PositioningMode::Relative)];
    let mut h = head();
    let (steps, err) = run_gcode(&mut h, &prog);
    assert_eq!(steps, vec![Step::Wait(0)]);
    assert_eq!(err, None);
}

#[test]
fn zero_feed_line_is_not_fatal() {
    let lines = vec!["G1 F0".to_string(), "G1 X1e1".to_string()];
    let prog = parse_gcode_lines(&lines).unwrap();
    assert_eq!(
        prog[1],
        Instruction::LinearMove(LinearMoveCommand {
            point: Some(Point { x: Some(10_000_000), y: None, z: None }),
            feed_rate: None,
            extruded: None,
        })
    );
    let mut h = head();
    let (steps, err) = run_gcode(&mut h, &prog[..1].to_vec());
    assert_eq!(steps, vec![]);
    assert_eq!(err, None);
    assert_eq!(h.velocity, 0);
}

#[test]
fn comment_ends_dwell_and_release_lines() {
    assert_eq!(parse_line("G4 P100 ; S9"), Ok(Some(Instruction::Pause(100_000))));
    assert_eq!(parse_line("M18 X ;Y Z"), Ok(Some(Instruction::Release(true, false, false))));
    assert_eq!(parse_line("G1 X1 ;F1e400x"), parse_line("G1 X1 ;"));
}
