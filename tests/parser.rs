use ihoover::model::{Command, Grid, Orientation, Position};
use ihoover::parser::{
    parse_commands, parse_grid, parse_lines, parse_position, split_fields, DecodeError, Field,
    ParsingResult,
};

fn missing(field: Field) -> DecodeError {
    DecodeError { field, token: None }
}

fn invalid(field: Field, token: &str) -> DecodeError {
    DecodeError { field, token: Some(token.chars().collect()) }
}

#[test]
fn should_parse_a_grid() {
    assert_eq!(Ok(Grid::new(10, 10)), parse_grid("10 10"));
    assert_eq!(Ok(Grid::new(0, 5)), parse_grid("0 5"));
}

#[test]
fn should_failed_to_parse_a_grid_when_x_is_missing() {
    assert_eq!(Err(missing(Field::GridX)), parse_grid(""));
}

#[test]
fn should_failed_to_parse_a_grid_when_y_is_missing() {
    assert_eq!(Err(missing(Field::GridY)), parse_grid("10"));
}

#[test]
fn should_failed_to_parse_a_grid_when_x_is_not_a_number() {
    assert_eq!(Err(invalid(Field::GridX, "x")), parse_grid("x 10"));
}

#[test]
fn should_failed_to_parse_a_grid_when_y_is_not_a_number() {
    assert_eq!(Err(invalid(Field::GridY, "y")), parse_grid("10 y"));
}

#[test]
fn should_parse_a_position() {
    assert_eq!(Ok(Position::new(5, 5, Orientation::North)), parse_position("5 5 N"));
    assert_eq!(Ok(Position::new(8, 1, Orientation::West)), parse_position("8 1 W"));
}

#[test]
fn should_failed_to_parse_a_position_when_x_is_missing() {
    assert_eq!(Err(missing(Field::PositionX)), parse_position(""));
}

#[test]
fn should_failed_to_parse_a_position_when_y_is_missing() {
    assert_eq!(Err(missing(Field::PositionY)), parse_position("10"));
}

#[test]
fn should_failed_to_parse_a_position_when_orientation_is_missing() {
    assert_eq!(Err(missing(Field::Orientation)), parse_position("10 10"));
}

#[test]
fn should_failed_to_parse_a_position_when_orientation_is_invalid() {
    assert_eq!(Err(invalid(Field::Orientation, "X")), parse_position("10 10 X"));
}

#[test]
fn should_parse_commands() {
    assert_eq!(
        Ok(vec![Command::Forward, Command::RotateLeft, Command::RotateRight]),
        parse_commands("AGD")
    );
    assert_eq!(Ok(vec![Command::Forward, Command::Forward]), parse_commands("AA"));
}

#[test]
fn should_failed_to_parse_commands_when_a_command_is_invalid() {
    assert_eq!(Err(invalid(Field::Command, "X")), parse_commands("X"));
}

#[test]
fn first_bad_command_is_named() {
    assert_eq!(Err(invalid(Field::Command, "b")), parse_commands("AGbDc"));
    assert_eq!(Err(invalid(Field::Command, " ")), parse_commands("A D"));
    assert_eq!(Ok(Vec::new()), parse_commands(""));
}

#[test]
fn numbers_follow_the_integer_grammar() {
    assert_eq!(Ok(Grid::new(255, 0)), parse_grid("255 +0"));
    assert_eq!(Err(invalid(Field::GridX, "256")), parse_grid("256 1"));
    assert_eq!(Err(invalid(Field::GridX, "-1")), parse_grid("-1 1"));
    assert_eq!(Err(invalid(Field::GridY, "+")), parse_grid("1 +"));
    assert_eq!(Err(invalid(Field::GridX, "1x")), parse_grid("1x 2"));
    assert_eq!(Ok(Grid::new(7, 9)), parse_grid("  007\t9  extra"));
    assert_eq!(Ok(Position::new(-128, 127, Orientation::South)), parse_position("-128 +127 S"));
    assert_eq!(Err(invalid(Field::PositionX, "128")), parse_position("128 0 N"));
    assert_eq!(Err(invalid(Field::PositionY, "-129")), parse_position("0 -129 N"));
    assert_eq!(Err(invalid(Field::PositionY, "-")), parse_position("0 - N"));
}

#[test]
fn fields_split_on_white_space() {
    let expected: Vec<Vec<char>> = vec![vec!['a', 'b'], vec!['c'], vec!['d']];
    assert_eq!(expected, split_fields(" ab\tc\u{3000}d \n"));
    assert!(split_fields("  \t ").is_empty());
}

#[test]
fn headings_and_commands_read_from_text() {
    assert_eq!(Ok(Orientation::East), "E".parse::<Orientation>());
    assert_eq!(Err(invalid(Field::Orientation, "Q")), "Q".parse::<Orientation>());
    assert_eq!(Ok(Command::RotateLeft), "G".parse::<Command>());
    assert_eq!(Err(invalid(Field::Command, "AA")), "AA".parse::<Command>());
}

fn lines(text: &[&str]) -> Vec<String> {
    text.iter().map(|l| l.to_string()).collect()
}

#[test]
fn whole_input_decodes() {
    assert_eq!(
        Ok(ParsingResult {
            grid: Grid::new(10, 10),
            position: Position::new(5, 5, Orientation::North),
            commands: vec![Command::RotateRight, Command::Forward],
        }),
        parse_lines(&lines(&["10 10", "5 5 N", "DA"]))
    );
}

#[test]
fn whole_input_reports_its_first_fault() {
    assert_eq!(Err(missing(Field::GridLine)), parse_lines(&lines(&[])));
    assert_eq!(Err(missing(Field::PositionLine)), parse_lines(&lines(&["1 1"])));
    assert_eq!(Err(missing(Field::CommandsLine)), parse_lines(&lines(&["1 1", "0 0 E"])));
    assert_eq!(Err(missing(Field::GridY)), parse_lines(&lines(&["1", "0 0 Z"])));
    assert_eq!(
        Err(invalid(Field::Orientation, "Z")),
        parse_lines(&lines(&["1 1", "0 0 Z", "?"]))
    );
    assert_eq!(
        Err(invalid(Field::Command, "?")),
        parse_lines(&lines(&["1 1", "0 0 N", "A?"]))
    );
}
