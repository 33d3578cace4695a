use submarine::navigation::Operation;
use submarine::parsing::{parse_lines, parse_measurements, ParseError};

#[test]
fn unknown_direction_fails_with_parse_error() {
    let lines = vec![String::from("sideways 4")];
    assert_eq!(parse_lines(&lines), Err(ParseError { line: 0 }));
}

#[test]
fn command_without_a_space_fails() {
    let lines = vec![String::from("forward")];
    assert_eq!(parse_lines(&lines), Err(ParseError { line: 0 }));
}

#[test]
fn command_with_two_spaces_fails() {
    let lines = vec![String::from("forward  9")];
    assert_eq!(parse_lines(&lines), Err(ParseError { line: 0 }));
}

#[test]
fn negative_magnitude_fails() {
    let lines = vec![String::from("forward -9")];
    assert_eq!(parse_lines(&lines), Err(ParseError { line: 0 }));
}

#[test]
fn magnitude_beyond_i32_fails() {
    assert_eq!(
        parse_lines(&vec![String::from("forward 2147483648")]),
        Err(ParseError { line: 0 })
    );
    let ok = parse_lines(&vec![String::from("forward 2147483647")]).unwrap();
    assert_eq!(ok[0], Operation::Forward(2147483647));
}

#[test]
fn first_malformed_command_is_reported() {
    let lines = vec![
        String::from("forward 1"),
        String::from("up x"),
        String::from("sideways 2"),
    ];
    assert_eq!(parse_lines(&lines), Err(ParseError { line: 1 }));
}

#[test]
fn all_directions_parse() {
    let lines = vec![
        String::from("forward 1"),
        String::from("up 2"),
        String::from("down 30"),
    ];
    let operations = parse_lines(&lines).unwrap();
    assert_eq!(
        operations,
        vec![Operation::Forward(1), Operation::Up(2), Operation::Down(30)]
    );
}

#[test]
fn measurements_parse_with_optional_sign() {
    let lines = vec![
        String::from("182"),
        String::from("-33"),
        String::from("+7"),
        String::from("0"),
    ];
    assert_eq!(parse_measurements(&lines).unwrap(), vec![182, -33, 7, 0]);
}

#[test]
fn measurement_bounds_of_i32_are_kept() {
    assert_eq!(
        parse_measurements(&vec![String::from("2147483647")]).unwrap(),
        vec![2147483647]
    );
    assert_eq!(
        parse_measurements(&vec![String::from("-2147483648")]).unwrap(),
        vec![-2147483648]
    );
    assert_eq!(
        parse_measurements(&vec![String::from("2147483648")]),
        Err(ParseError { line: 0 })
    );
    assert_eq!(
        parse_measurements(&vec![String::from("-2147483649")]),
        Err(ParseError { line: 0 })
    );
}

#[test]
fn first_malformed_measurement_is_reported() {
    let lines = vec![
        String::from("12"),
        String::from("12a"),
        String::from(""),
    ];
    assert_eq!(parse_measurements(&lines), Err(ParseError { line: 1 }));
}

#[test]
fn empty_and_sign_only_measurements_fail() {
    assert_eq!(
        parse_measurements(&vec![String::from("")]),
        Err(ParseError { line: 0 })
    );
    assert_eq!(
        parse_measurements(&vec![String::from("-")]),
        Err(ParseError { line: 0 })
    );
    assert_eq!(
        parse_measurements(&vec![String::from("+")]),
        Err(ParseError { line: 0 })
    );
}
