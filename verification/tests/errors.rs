use ucl::{
    array, json_value, key, multi_line_string, object, parse, value, ParseError, ParseErrorKind,
    UclError,
};

fn error(kind: ParseErrorKind, offset: usize, line: usize, column: usize) -> ParseError {
    ParseError { kind, offset, line, column }
}

#[test]
fn a_misplaced_character_is_reported_where_it_stands() {
    assert_eq!(parse("a = }"), Err(error(ParseErrorKind::UnexpectedToken, 4, 0, 4)));
    assert_eq!(parse("= 1"), Err(error(ParseErrorKind::UnexpectedToken, 0, 0, 0)));
    assert_eq!(parse("a 1"), Err(error(ParseErrorKind::UnexpectedEnd, 3, 0, 3)));
    assert_eq!(parse("a = 1 }"), Err(error(ParseErrorKind::UnexpectedToken, 6, 0, 6)));
    assert_eq!(parse("a = 1;;"), Err(error(ParseErrorKind::UnexpectedToken, 6, 0, 6)));
    assert_eq!(parse("a. = 1"), Err(error(ParseErrorKind::UnexpectedToken, 2, 0, 2)));
    assert_eq!(parse(".a = 1"), Err(error(ParseErrorKind::UnexpectedToken, 0, 0, 0)));
    assert_eq!(parse("a = [1,,2]"), Err(error(ParseErrorKind::UnexpectedToken, 7, 0, 7)));
    assert_eq!(value("1 2"), Err(error(ParseErrorKind::UnexpectedToken, 2, 0, 2)));
    assert_eq!(object("[1]"), Err(error(ParseErrorKind::UnexpectedToken, 0, 0, 0)));
    assert_eq!(array("{}"), Err(error(ParseErrorKind::UnexpectedToken, 0, 0, 0)));
    assert_eq!(key("a.b"), Err(error(ParseErrorKind::UnexpectedToken, 1, 0, 1)));
    assert_eq!(multi_line_string("EOD"), Err(error(ParseErrorKind::UnexpectedToken, 0, 0, 0)));
    assert_eq!(
        multi_line_string("<<EOD trailing\nEOD\n"),
        Err(error(ParseErrorKind::UnexpectedToken, 5, 0, 5))
    );
    assert_eq!(multi_line_string("<<\n\n"), Err(error(ParseErrorKind::UnexpectedToken, 2, 0, 2)));
}

#[test]
fn a_text_that_ends_too_soon_is_reported_at_its_end() {
    assert_eq!(parse("a ="), Err(error(ParseErrorKind::UnexpectedEnd, 3, 0, 3)));
    assert_eq!(parse("a"), Err(error(ParseErrorKind::UnexpectedEnd, 1, 0, 1)));
    assert_eq!(parse("a.\n"), Err(error(ParseErrorKind::UnexpectedToken, 2, 0, 2)));
    assert_eq!(parse("a."), Err(error(ParseErrorKind::UnexpectedEnd, 2, 0, 2)));
    assert_eq!(value(""), Err(error(ParseErrorKind::UnexpectedEnd, 0, 0, 0)));
    assert_eq!(value("  \n "), Err(error(ParseErrorKind::UnexpectedEnd, 4, 1, 1)));
    assert_eq!(object(""), Err(error(ParseErrorKind::UnexpectedEnd, 0, 0, 0)));
    assert_eq!(json_value("{\"a\""), Err(error(ParseErrorKind::UnexpectedEnd, 4, 0, 4)));
}

#[test]
fn a_number_out_of_range_is_refused() {
    assert_eq!(
        parse("a = 9223372036854775808"),
        Err(error(ParseErrorKind::InvalidNumber, 4, 0, 4))
    );
    assert_eq!(value("9223372036854775807").unwrap(), ucl::Value::from(i64::MAX));
    assert_eq!(value("-9223372036854775808").unwrap(), ucl::Value::from(i64::MIN));
    assert!(value("-9223372036854775809").is_err());
    assert!(value("9007199254740993kb").is_err());
    assert!(value("99999999999999999999").is_err());
    assert!(value("0xffffffffffffffffff").is_err());
    assert!(value("1e2147483648").is_err());
    assert!(value("10e2147483647").is_err());
    assert!(value("1e99999999999999999999999").is_err());
    assert!(value("1.00000000000000000001").is_err());
    assert!(value("1e2147483647").is_ok());
    assert!(value("1e-2147483648").is_err());
    assert!(value("1e-2147483647").is_ok());
    assert_eq!(json_value("[1e2147483648]"), Err(error(ParseErrorKind::InvalidNumber, 1, 0, 1)));
    assert_eq!(json_value("[1x]"), Err(error(ParseErrorKind::UnexpectedToken, 1, 0, 1)));
}

#[test]
fn a_bad_escape_is_reported_at_its_backslash() {
    assert_eq!(parse("a = \"x\\q\""), Err(error(ParseErrorKind::InvalidEscape, 6, 0, 6)));
    assert_eq!(value("\"\\u12\""), Err(error(ParseErrorKind::InvalidEscape, 1, 0, 1)));
    assert_eq!(value("\"\\uD800\""), Err(error(ParseErrorKind::InvalidEscape, 1, 0, 1)));
    assert_eq!(value("\"\\udfff\""), Err(error(ParseErrorKind::InvalidEscape, 1, 0, 1)));
    assert_eq!(value("\"\\u00zz\""), Err(error(ParseErrorKind::InvalidEscape, 1, 0, 1)));
    assert_eq!(value("\"\\ud83d\\u0041\""), Err(error(ParseErrorKind::InvalidEscape, 1, 0, 1)));
    assert_eq!(value("\"\\ud83dx\""), Err(error(ParseErrorKind::InvalidEscape, 1, 0, 1)));
    assert_eq!(value("\"x\\ud83d\\ude0\""), Err(error(ParseErrorKind::InvalidEscape, 2, 0, 2)));
}

#[test]
fn an_open_string_is_reported_at_its_quote() {
    assert_eq!(parse("a = \"open"), Err(error(ParseErrorKind::UnterminatedString, 4, 0, 4)));
    assert_eq!(parse("a = \"open\\"), Err(error(ParseErrorKind::UnterminatedString, 4, 0, 4)));
    assert_eq!(parse("x = 1\n\"k"), Err(error(ParseErrorKind::UnterminatedString, 6, 1, 0)));
}

#[test]
fn an_open_heredoc_is_reported_at_its_marker() {
    assert_eq!(
        parse("a = <<EOD\nbody\nEOF\n"),
        Err(error(ParseErrorKind::UnterminatedHeredoc, 4, 0, 4))
    );
    assert_eq!(parse("a = <<EOD"), Err(error(ParseErrorKind::UnterminatedHeredoc, 4, 0, 4)));
    assert_eq!(parse("a = <<EOD\n"), Err(error(ParseErrorKind::UnterminatedHeredoc, 4, 0, 4)));
}

#[test]
fn an_open_comment_is_reported_at_its_start() {
    assert_eq!(parse("a = 1 /* open"), Err(error(ParseErrorKind::UnterminatedComment, 6, 0, 6)));
    assert_eq!(parse("/*/"), Err(error(ParseErrorKind::UnterminatedComment, 0, 0, 0)));
    assert!(parse("/**/").is_ok());
}

#[test]
fn an_open_block_is_reported_at_the_end() {
    assert_eq!(parse("a {\n b = 1\n"), Err(error(ParseErrorKind::UnterminatedBlock, 11, 2, 0)));
    assert_eq!(parse("a = [1, 2"), Err(error(ParseErrorKind::UnterminatedBlock, 9, 0, 9)));
    assert_eq!(json_value("[1"), Err(error(ParseErrorKind::UnterminatedBlock, 2, 0, 2)));
    assert_eq!(json_value("{\"a\": 1"), Err(error(ParseErrorKind::UnterminatedBlock, 7, 0, 7)));
}

#[test]
fn nesting_has_a_limit() {
    let deep = format!("{}{}", "[".repeat(128), "]".repeat(128));
    assert!(value(&deep).is_ok());
    assert!(json_value(&deep).is_ok());
    let deeper = format!("{}{}", "[".repeat(129), "]".repeat(129));
    assert_eq!(value(&deeper), Err(error(ParseErrorKind::TooDeep, 128, 0, 128)));
    assert_eq!(json_value(&deeper), Err(error(ParseErrorKind::TooDeep, 128, 0, 128)));
    let sections = format!("{}x = 1{}", "a {".repeat(128), "}".repeat(128));
    assert!(parse(&sections).is_ok());
    let sections = format!("{}x = 1{}", "a {".repeat(129), "}".repeat(129));
    assert_eq!(parse(&sections).unwrap_err().kind, ParseErrorKind::TooDeep);
}

#[test]
fn lines_and_columns_count_from_zero() {
    let e = parse("a = 1\nb = 2\n  c = }\n").unwrap_err();
    assert_eq!(e, error(ParseErrorKind::UnexpectedToken, 18, 2, 6));
    let e = parse("\u{e9}\u{20ac} = \"x\n").unwrap_err();
    assert_eq!(e, error(ParseErrorKind::UnterminatedString, 5, 0, 5));
}

#[test]
fn every_kind_has_its_words() {
    assert_eq!(ParseErrorKind::UnexpectedToken.describe(), "unexpected character");
    assert_eq!(ParseErrorKind::UnexpectedEnd.describe(), "unexpected end of input");
    assert_eq!(ParseErrorKind::InvalidNumber.describe(), "numeric literal out of range");
    assert_eq!(ParseErrorKind::InvalidEscape.describe(), "invalid escape sequence");
    assert_eq!(ParseErrorKind::UnterminatedString.describe(), "unterminated string");
    assert_eq!(ParseErrorKind::UnterminatedHeredoc.describe(), "unterminated heredoc");
    assert_eq!(ParseErrorKind::UnterminatedComment.describe(), "unterminated comment");
    assert_eq!(ParseErrorKind::UnterminatedBlock.describe(), "unterminated block");
    assert_eq!(ParseErrorKind::TooDeep.describe(), "nesting too deep");
}

#[test]
fn the_two_kinds_of_failure_stay_apart() {
    let e = parse("a =").unwrap_err();
    assert!(matches!(UclError::from(e), UclError::Parse(inner) if inner == e));
    let io = std::io::Error::new(std::io::ErrorKind::NotFound, "gone");
    assert!(matches!(UclError::from(io), UclError::Io(_)));
}
