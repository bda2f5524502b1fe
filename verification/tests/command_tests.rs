use game_of_life::ui::command::{parse, Command, ParseError};

#[test]
fn parses_quit_commands() {
    assert_eq!(parse(":q"), Ok(Command::Quit));
    assert_eq!(parse(":quit"), Ok(Command::Quit));
}

#[test]
fn parses_board_clear_commands() {
    assert_eq!(parse(":b clear"), Ok(Command::BoardClear));
    assert_eq!(parse(":board clear"), Ok(Command::BoardClear));
}

#[test]
fn parses_cursor_commands_with_signed_coordinates() {
    assert_eq!(parse(":cur 3 4"), Ok(Command::Cursor(3, 4)));
    assert_eq!(parse(":cursor -1 +2"), Ok(Command::Cursor(-1, 2)));
    assert_eq!(parse(":cursor 0 007"), Ok(Command::Cursor(0, 7)));
    assert_eq!(
        parse(":cur -2147483648 2147483647"),
        Ok(Command::Cursor(i32::MIN, i32::MAX))
    );
}

#[test]
fn rejects_unknown_commands() {
    assert_eq!(parse(":x"), Err(ParseError::InvalidCommand));
    assert_eq!(parse(""), Err(ParseError::InvalidCommand));
    assert_eq!(parse(":"), Err(ParseError::InvalidCommand));
    assert_eq!(parse(":b drop"), Err(ParseError::InvalidCommand));
    assert_eq!(parse(":board"), Err(ParseError::InvalidCommand));
}

#[test]
fn rejects_malformed_cursor_arguments() {
    assert_eq!(parse(":cur"), Err(ParseError::InvalidArgument));
    assert_eq!(parse(":cur a 2"), Err(ParseError::InvalidArgument));
    assert_eq!(parse(":cur 1"), Err(ParseError::InvalidArgument));
    assert_eq!(parse(":cur 1 2x"), Err(ParseError::InvalidArgument));
    assert_eq!(parse(":cur 2147483648 0"), Err(ParseError::InvalidArgument));
    assert_eq!(parse(":cur -2147483649 0"), Err(ParseError::InvalidArgument));
    assert_eq!(parse(":cur - 1"), Err(ParseError::InvalidArgument));
}

#[test]
fn ignores_extra_whitespace_between_words() {
    assert_eq!(parse("::quit"), Ok(Command::Quit));
    assert_eq!(parse(":  board   clear  "), Ok(Command::BoardClear));
    assert_eq!(parse("q"), Ok(Command::Quit));
}
