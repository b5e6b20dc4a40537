//! Command and parser behaviour.

use nonplanar::command::{Command, G1, BEGIN_DEWARP};
use nonplanar::parser::{parse_float_arg, parse_line};

#[test]
fn single_cmd_create_and_set() {
    let cmd = G1::new().b(12300000);

    assert_eq!(cmd.a, None);
    assert_eq!(cmd.b, Some(12300000));
}

#[test]
fn parse_args() {
    let (_, cmd) = G1::parse_args(b"A1 B-2.3").unwrap();

    assert_eq!(cmd.a, Some(100000));
    assert_eq!(cmd.b, Some(-230000));
}

#[test]
fn float_arg() {
    let (_, arg) = parse_float_arg(b"1024", 0).unwrap();
    assert_eq!(arg, 102400000);

    let (_, arg) = parse_float_arg(b"-1.23", 0).unwrap();
    assert_eq!(arg, -123000);
}

#[test]
fn line() {
    let opt_cmd = parse_line(b"N1 G1 X1.2 Y-3.45; comment");

    match opt_cmd {
        Some(Command::G1(cmd)) => {
            assert_eq!(cmd.x, Some(120000));
            assert_eq!(cmd.y, Some(-345000));
            assert_eq!(cmd.z, None);
        }
        _ => panic!(),
    }
}

#[test]
fn lowercase_axis_letters_are_accepted() {
    match parse_line(b"G1 x2 e0.5") {
        Some(Command::G1(cmd)) => {
            assert_eq!(cmd.x, Some(200000));
            assert_eq!(cmd.e, Some(50000));
        }
        _ => panic!(),
    }
}

#[test]
fn unknown_commands_and_stray_text_fail_softly() {
    assert!(parse_line(b"M105").is_none());
    assert!(parse_line(b"; only a comment").is_none());
    assert!(parse_line(b"").is_none());
    assert!(parse_line(b"G1 X1 @@@").is_none());
    assert!(parse_line(b"G1 Q5").is_none());
    assert!(parse_line(b"G92 F100").is_none());
    assert!(parse_line(b"G1 X99999999").is_none());
}

#[test]
fn markers_parse() {
    match parse_line(b"BEGIN_DEWARP X200 Y200") {
        Some(Command::BEGIN_DEWARP(b)) => {
            assert_eq!(b.x, Some(20000000));
            assert_eq!(b.y, Some(20000000));
        }
        _ => panic!(),
    }
    match parse_line(b"END_DEWARP") {
        Some(Command::END_DEWARP(_)) => {}
        _ => panic!(),
    }
    assert!(parse_line(b"END_DEWARP X1").is_none());
}

#[test]
fn duplicate_argument_takes_the_last_value() {
    match parse_line(b"G1 X1 X2") {
        Some(Command::G1(cmd)) => assert_eq!(cmd.x, Some(200000)),
        _ => panic!(),
    }
}

#[test]
fn rendering_uses_five_decimals() {
    let cmd = G1::new().x(120000).y(-5);
    assert_eq!(cmd.render(), b"G1 X1.20000 Y-0.00005".to_vec());

    let marker = BEGIN_DEWARP::new().x(20000000);
    assert_eq!(marker.render(), b"BEGIN_DEWARP X200.00000".to_vec());
}
