use submarine::navigation::{
    calculate_depth, calculate_depth_using_aim, calculate_horizontal, navigate, Operation,
};
use submarine::parsing::parse_lines;

#[test]
fn it_parses_the_first_line() {
    let lines = vec![String::from("forward 9")];
    let operations = parse_lines(&lines).unwrap();
    assert_eq!(operations[0], Operation::Forward(9));
}

#[test]
fn canonical_example_positions() {
    let lines = vec![
        String::from("forward 5"),
        String::from("down 5"),
        String::from("forward 8"),
        String::from("up 3"),
        String::from("down 8"),
        String::from("forward 2"),
    ];
    let operations = parse_lines(&lines).unwrap();
    let horizontal = calculate_horizontal(&operations);
    let depth = calculate_depth(&operations);
    assert_eq!(horizontal, 15);
    assert_eq!(depth, 10);
    assert_eq!(horizontal * depth, 150);
    let aim_depth = calculate_depth_using_aim(&operations);
    assert_eq!(aim_depth, 60);
    assert_eq!(horizontal * aim_depth, 900);
    assert_eq!(navigate(&operations), Some((15, 10, 60)));
}

#[test]
fn forward_only_keeps_both_depths_zero() {
    let operations = vec![
        Operation::Forward(3),
        Operation::Forward(1),
        Operation::Forward(4),
    ];
    assert_eq!(calculate_depth(&operations), 0);
    assert_eq!(calculate_depth_using_aim(&operations), 0);
    assert_eq!(navigate(&operations), Some((8, 0, 0)));
}

#[test]
fn vertical_commands_do_not_move_horizontally() {
    let operations = vec![Operation::Down(7), Operation::Up(2)];
    assert_eq!(calculate_horizontal(&operations), 0);
    assert_eq!(calculate_depth(&operations), 5);
}

#[test]
fn navigate_reports_out_of_range_accumulation() {
    let operations = vec![Operation::Down(2_000_000_000), Operation::Down(2_000_000_000)];
    assert_eq!(navigate(&operations), None);
}

#[test]
fn navigate_on_no_commands_is_all_zero() {
    let operations: Vec<Operation> = vec![];
    assert_eq!(navigate(&operations), Some((0, 0, 0)));
}
