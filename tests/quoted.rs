use hsh_parse::quoted::{
    decode_double_quoted, decode_single_quoted, escaped_char, parse_double_quoted_string,
    parse_single_quoted_string, parse_string, QuoteError,
};

fn ok(rest: &str, value: &str) -> Result<(String, String), QuoteError> {
    Ok((String::from(rest), String::from(value)))
}

#[test]
fn string_run() {
    assert_eq!(parse_string("''"), ok("", ""));
    assert_eq!(parse_string("'a'"), ok("", "a"));
    assert_eq!(parse_string("'\n'"), ok("", "\n"));
    assert_eq!(parse_string("'测试'"), ok("", "测试"));
    assert_eq!(parse_string("'a\\\nb'"), ok("", "ab"));

    assert_eq!(parse_string("\"\""), ok("", ""));
    assert_eq!(parse_string("\"a\""), ok("", "a"));
    assert_eq!(parse_string("\"\n\""), ok("", "\n"));
    assert_eq!(parse_string("\"测试\""), ok("", "测试"));
    assert_eq!(parse_string("\"\\$\\`\\\"\\\\\""), ok("", r#"$`"\"#));
    assert_eq!(parse_string("\"\\a\""), ok("", "\\a"));
    assert_eq!(parse_string("\"a\\\nb\""), ok("", "ab"));
}

#[test]
fn parse_leaves_the_rest() {
    assert_eq!(parse_string("'a'b c"), ok("b c", "a"));
    assert_eq!(parse_string("\"a\\\"b\" tail"), ok(" tail", "a\"b"));
    assert_eq!(parse_single_quoted_string("'x\\'y"), ok("y", "x\\"));
}

#[test]
fn parse_errors() {
    assert_eq!(parse_string("abc"), Err(QuoteError::NotQuoted));
    assert_eq!(parse_string(""), Err(QuoteError::NotQuoted));
    assert_eq!(parse_string("'abc"), Err(QuoteError::Unterminated));
    assert_eq!(parse_string("\"ab\\\""), Err(QuoteError::Unterminated));
    assert_eq!(parse_single_quoted_string("\"a\""), Err(QuoteError::NotQuoted));
    assert_eq!(parse_double_quoted_string("'a'"), Err(QuoteError::NotQuoted));
}

#[test]
fn decode_bodies() {
    assert_eq!(decode_single_quoted("a\\\nb\\n$"), "ab\\n$");
    assert_eq!(decode_double_quoted("a\\nb"), "a\nb");
    assert_eq!(decode_double_quoted("\\$x \\`y\\` \\\" \\\\ \\q"), "$x `y` \" \\ \\q");
    assert_eq!(decode_double_quoted("line\\\ncontinued"), "linecontinued");
    assert_eq!(decode_double_quoted("end\\"), "end\\");
    assert_eq!(decode_single_quoted(""), "");
}

#[test]
fn escape_table() {
    assert_eq!(escaped_char('$'), Some('$'));
    assert_eq!(escaped_char('`'), Some('`'));
    assert_eq!(escaped_char('"'), Some('"'));
    assert_eq!(escaped_char('n'), Some('\n'));
    assert_eq!(escaped_char('\\'), Some('\\'));
    assert_eq!(escaped_char('a'), None);
}
