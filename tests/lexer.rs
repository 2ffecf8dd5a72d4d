use hsh_parse::error::LexerError;
use hsh_parse::lexer::Lexer;

fn test_group_with_location(source: &str, results: &[(&str, usize, usize)]) {
    let mut lex = Lexer::new(source);
    for &(text, start, length) in results {
        let token = lex.next();
        assert!(token.is_ok(), "{:?} in {:?}", token, source);
        let token = token.unwrap();
        assert_eq!(token.text, text);
        assert_eq!(token.start, start);
        assert_eq!(token.span_length, length);
        assert_eq!(&source.as_bytes()[start..start + length].len(), &length);
    }
    let token = lex.next();
    assert_eq!(token.unwrap_err(), LexerError::EndOfText);
}

fn test_group(source: &str, results: &[&str]) {
    let mut lex = Lexer::new(source);
    for &text in results {
        let token = lex.next();
        assert!(token.is_ok(), "{:?} in {:?}", token, source);
        assert_eq!(token.unwrap().text, text);
    }
    let token = lex.next();
    assert_eq!(token.unwrap_err(), LexerError::EndOfText);
}

fn texts(source: &str) -> Result<Vec<String>, LexerError> {
    let mut lex = Lexer::new(source);
    let mut out = Vec::new();
    loop {
        match lex.next() {
            Ok(token) => out.push(token.text),
            Err(LexerError::EndOfText) => return Ok(out),
            Err(e) => return Err(e),
        }
    }
}

#[test]
fn mod_run() {
    test_group_with_location("a b c", &[("a", 0, 1), ("b", 2, 1), ("c", 4, 1)]);
}

#[test]
fn test_with_location() {
    test_group_with_location("a", &[("a", 0, 1)]);
    test_group_with_location("a ", &[("a", 0, 1)]);
    test_group_with_location(" a ", &[("a", 1, 1)]);
    test_group_with_location("a b", &[("a", 0, 1), ("b", 2, 1)]);
    test_group_with_location("a  b", &[("a", 0, 1), ("b", 3, 1)]);
    test_group_with_location("a  b  ", &[("a", 0, 1), ("b", 3, 1)]);
    test_group_with_location("a b c", &[("a", 0, 1), ("b", 2, 1), ("c", 4, 1)]);
    test_group_with_location("a bc def", &[("a", 0, 1), ("bc", 2, 2), ("def", 5, 3)]);
    test_group_with_location(" a  bc   def", &[("a", 1, 1), ("bc", 4, 2), ("def", 9, 3)]);
    test_group_with_location(" a \nbc  \ndef", &[("a", 1, 1), ("bc", 4, 2), ("def", 9, 3)]);
    test_group_with_location(
        " 'a' 'bc def' \"123\"",
        &[("'a'", 1, 3), ("'bc def'", 5, 8), ("\"123\"", 14, 5)],
    );
    test_group_with_location("测试 äöü ☺☺☺", &[("测试", 0, 6), ("äöü", 7, 6), ("☺☺☺", 14, 9)]);
    test_group_with_location("<<|>>", &[("<<", 0, 2), ("|", 2, 1), (">>", 3, 2)]);
    test_group_with_location("1>2", &[("1", 0, 1), (">", 1, 1), ("2", 2, 1)]);
    test_group_with_location("\\\n", &[]);
    test_group_with_location("a\\\nb\nc", &[("ab", 0, 4), ("c", 5, 1)]);
    test_group_with_location("a#b #c\nd", &[("a#b", 0, 3), ("d", 7, 1)]);
}

#[test]
fn test_quote() {
    test_group("'\"\"'", &["'\"\"'"]);
    test_group("\"''\"", &["\"''\""]);
    test_group("\"\\\"\\\"\"", &["\"\\\"\\\"\""]);
    test_group("a\\ b c\\\nd", &["a\\ b", "cd"]);
}

#[test]
fn test_invalid_quote() {
    let token = Lexer::new("\\").next();
    assert_eq!(token.unwrap_err(), LexerError::UnmatchedEscapeSequence);
}

#[test]
fn test_normal() {
    test_group(
        "echo \"hello, world!\" | sed 's/hello/hi/g' | grep -o world >> output.txt 2>&1",
        &[
            "echo",
            "\"hello, world!\"",
            "|",
            "sed",
            "'s/hello/hi/g'",
            "|",
            "grep",
            "-o",
            "world",
            ">>",
            "output.txt",
            "2",
            ">&",
            "1",
        ],
    );
}

#[test]
fn test_empty() {
    test_group("", &[]);
    assert!(Lexer::new("").next().is_err());
    assert!(Lexer::new(" ").next().is_err());
    assert!(Lexer::new("\t").next().is_err());
    assert!(Lexer::new("\n").next().is_err());
    assert!(Lexer::new(" \t \t").next().is_err());
    assert_eq!(Lexer::new(" \t \t").next().unwrap_err(), LexerError::EndOfText);
}

#[test]
fn continuation_removed_from_text_but_kept_in_span() {
    let mut lex = Lexer::new("a\\\nb\nc");
    let first = lex.next().unwrap();
    assert_eq!(first.text, "ab");
    assert_eq!((first.start, first.span_length), (0, 4));
    let second = lex.next().unwrap();
    assert_eq!(second.text, "c");
    assert_eq!((second.start, second.span_length), (5, 1));
}

#[test]
fn span_reproduces_raw_source() {
    let source = " x'a b'\\\ny \"q\\\"\" <<- é\\ ü";
    let mut lex = Lexer::new(source);
    let mut raws = Vec::new();
    loop {
        match lex.next() {
            Ok(token) => {
                let raw = &source[token.start..token.start + token.span_length];
                assert!(token.text.len() <= token.span_length);
                assert_eq!(raw.replace("\\\n", ""), token.text);
                raws.push(raw.to_string());
            },
            Err(e) => {
                assert_eq!(e, LexerError::EndOfText);
                break;
            },
        }
    }
    assert_eq!(raws, vec!["x'a b'\\\ny", "\"q\\\"\"", "<<-", "é\\ ü"]);
}

#[test]
fn blank_runs_separate_like_one_blank() {
    assert_eq!(texts("a  b  ").unwrap(), vec!["a", "b"]);
    assert_eq!(texts("a \t\n b").unwrap(), texts("a b").unwrap());
    assert_eq!(texts("   ").unwrap(), Vec::<String>::new());
}

#[test]
fn operators_munch_maximally() {
    assert_eq!(texts("<<|>>").unwrap(), vec!["<<", "|", ">>"]);
    assert_eq!(texts("cat<<-EOF").unwrap(), vec!["cat", "<<-", "EOF"]);
    assert_eq!(texts("a&&b||c;;").unwrap(), vec!["a", "&&", "b", "||", "c", ";;"]);
    assert_eq!(texts(">|x<>y").unwrap(), vec![">|", "x", "<>", "y"]);
    assert_eq!(texts("((").unwrap(), vec!["(", "("]);
}

#[test]
fn quoted_operator_is_a_word() {
    assert_eq!(texts("'(' ").unwrap(), vec!["'('"]);
    assert_eq!(texts("\"a|b\"c").unwrap(), vec!["\"a|b\"c"]);
    assert_eq!(texts("a\\|b").unwrap(), vec!["a\\|b"]);
}

#[test]
fn comments_are_stripped() {
    assert_eq!(texts("a#b #c\nd").unwrap(), vec!["a#b", "d"]);
    assert_eq!(texts("# only a comment").unwrap(), Vec::<String>::new());
    assert_eq!(texts("x # c1\n# c2\ny").unwrap(), vec!["x", "y"]);
    assert_eq!(texts("'#x' #y").unwrap(), vec!["'#x'"]);
}

#[test]
fn multibyte_offsets_are_byte_offsets() {
    let source = "测试 äöü ☺☺☺";
    let mut lex = Lexer::new(source);
    for expected in ["测试", "äöü", "☺☺☺"] {
        let token = lex.next().unwrap();
        assert!(source.is_char_boundary(token.start));
        assert!(source.is_char_boundary(token.start + token.span_length));
        assert_eq!(&source[token.start..token.start + token.span_length], expected);
    }
    assert_eq!(lex.next().unwrap_err(), LexerError::EndOfText);
}

#[test]
fn lone_backslash_is_fatal() {
    assert_eq!(texts("\\").unwrap_err(), LexerError::UnmatchedEscapeSequence);
    assert_eq!(texts("abc \\").unwrap_err(), LexerError::UnmatchedEscapeSequence);
}

#[test]
fn unterminated_quotes_are_errors() {
    assert_eq!(texts("'abc").unwrap_err(), LexerError::UnterminatedQuote);
    assert_eq!(texts("x \"ab\\\"").unwrap_err(), LexerError::UnterminatedQuote);
}

#[test]
fn substitutions_are_kept_whole() {
    assert_eq!(texts("$(echo a b) c").unwrap(), vec!["$(echo a b)", "c"]);
    assert_eq!(texts("${} $() $(())").unwrap(), vec!["${}", "$()", "$(())"]);
    assert_eq!(texts("`a b` x").unwrap(), vec!["`a b`", "x"]);
    assert_eq!(texts("$").unwrap(), vec!["$"]);
    assert_eq!(texts("$x;y").unwrap(), vec!["$x", ";", "y"]);
    assert_eq!(texts("a$(b ')' \"$(c)\" (d))e f").unwrap(), vec!["a$(b ')' \"$(c)\" (d))e", "f"]);
    assert_eq!(texts("$((1 + (2 * 3)))").unwrap(), vec!["$((1 + (2 * 3)))"]);
    assert_eq!(texts("${a:-$(b c)}").unwrap(), vec!["${a:-$(b c)}"]);
    assert_eq!(texts("\"$(a b\"").unwrap(), vec!["\"$(a b\""]);
}

#[test]
fn unterminated_substitutions_are_errors() {
    assert_eq!(texts("$(a").unwrap_err(), LexerError::UnterminatedSubstitution);
    assert_eq!(texts("`a").unwrap_err(), LexerError::UnterminatedSubstitution);
    assert_eq!(texts("${a").unwrap_err(), LexerError::UnterminatedSubstitution);
    assert_eq!(texts("$((1)").unwrap_err(), LexerError::UnterminatedSubstitution);
}

#[test]
fn end_of_text_repeats() {
    let mut lex = Lexer::new("a");
    assert_eq!(lex.next().unwrap().text, "a");
    assert_eq!(lex.next().unwrap_err(), LexerError::EndOfText);
    assert_eq!(lex.next().unwrap_err(), LexerError::EndOfText);
}

#[test]
fn raw_regions_and_tokens() {
    let mut lex = Lexer::new("é\\\nb cd");
    assert_eq!(lex.get_str(0, 4), "é\\\nb");
    assert_eq!(lex.get_str(5, 7), "cd");
    assert_eq!(lex.get_str(2, 2), "");
    let token = lex.next().unwrap();
    assert_eq!((token.text.as_str(), token.start, token.span_length), ("éb", 0, 5));
    let built = lex.get_token(&vec!['x', 'y'], 0, 0);
    assert_eq!((built.text.as_str(), built.start, built.span_length), ("xy", 0, 6));
}
