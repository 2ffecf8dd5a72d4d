//! Decoding of the contents of single- and double-quoted strings.
//!
//! Inside single quotes every character stands for itself, except that a backslash followed
//! by a newline (a line continuation) is removed. Inside double quotes a line continuation is
//! removed as well, a backslash before `$`, `` ` ``, `"`, `n` or another backslash stands for
//! `$`, `` ` ``, `"`, a newline or a backslash, and any other backslash stands for itself.
use vstd::prelude::*;
use crate::text::{chars_of, string_of_range};

verus! {

/// Why a quoted string could not be read.
#[derive(Debug, Clone, Copy, PartialEq, Eq, Structural)]
pub enum QuoteError {
    /// The input does not begin with the expected quote character.
    NotQuoted,
    /// The closing quote is missing.
    Unterminated,
}

/// The character that a backslash followed by `c` stands for inside double quotes, if any.
pub open spec fn escape_target(c: char) -> Option<char> {
    if c == '$' {
        Some('$')
    } else if c == '`' {
        Some('`')
    } else if c == '"' {
        Some('"')
    } else if c == 'n' {
        Some('\n')
    } else if c == '\\' {
        Some('\\')
    } else {
        None
    }
}

/// A line continuation, a backslash followed by a newline, begins at position `i` of `s`.
pub open spec fn continuation_at(s: Seq<char>, i: int) -> bool {
    0 <= i && i + 1 < s.len() && s[i] == '\\' && s[i + 1] == '\n'
}

/// A double-quote escape, a backslash followed by a character it resolves, begins at `i`.
pub open spec fn escape_at(s: Seq<char>, i: int) -> bool {
    0 <= i && i + 1 < s.len() && s[i] == '\\' && escape_target(s[i + 1]) is Some
}

/// The value of the body `s` of a single-quoted string.
pub open spec fn single_body(s: Seq<char>) -> Seq<char>
    decreases s.len(),
{
    if s.len() == 0 {
        seq![]
    } else if continuation_at(s, 0) {
        single_body(s.skip(2))
    } else {
        seq![s[0]] + single_body(s.skip(1))
    }
}

/// The value of the body `s` of a double-quoted string.
pub open spec fn double_body(s: Seq<char>) -> Seq<char>
    decreases s.len(),
{
    if s.len() == 0 {
        seq![]
    } else if continuation_at(s, 0) {
        double_body(s.skip(2))
    } else if escape_at(s, 0) {
        seq![escape_target(s[1])->0] + double_body(s.skip(2))
    } else {
        seq![s[0]] + double_body(s.skip(1))
    }
}

/// The position of the first single quote in `s` at or after `i`, or -1.
pub open spec fn single_close(s: Seq<char>, i: int) -> int
    decreases s.len() - i,
{
    if i < 0 || i >= s.len() {
        -1
    } else if s[i] == '\'' {
        i
    } else {
        single_close(s, i + 1)
    }
}

/// The position of the double quote that closes a double-quoted string whose body is read
/// from position `i` of `s` on, or -1. Escaped quotes do not close.
pub open spec fn double_close(s: Seq<char>, i: int) -> int
    decreases s.len() - i,
{
    if i < 0 || i >= s.len() {
        -1
    } else if s[i] == '"' {
        i
    } else if continuation_at(s, i) || escape_at(s, i) {
        double_close(s, i + 2)
    } else {
        double_close(s, i + 1)
    }
}

/// What reading a quoted string from the start of `s` gives: the input left after the closing
/// quote and the value of the string. `close` finds the closing quote, `body` decodes.
pub open spec fn quoted_parse(
    s: Seq<char>,
    quote: char,
    close: int,
    body: Seq<char>,
) -> Result<(Seq<char>, Seq<char>), QuoteError> {
    if s.len() == 0 || s[0] != quote {
        Err(QuoteError::NotQuoted)
    } else if close < 0 {
        Err(QuoteError::Unterminated)
    } else {
        Ok((s.skip(close + 1), body))
    }
}

/// Reading a single-quoted string from the start of `s`.
pub open spec fn single_quoted_parse(s: Seq<char>) -> Result<(Seq<char>, Seq<char>), QuoteError> {
    let close = single_close(s, 1);
    quoted_parse(s, '\'', close, single_body(s.subrange(1, close)))
}

/// Reading a double-quoted string from the start of `s`.
pub open spec fn double_quoted_parse(s: Seq<char>) -> Result<(Seq<char>, Seq<char>), QuoteError> {
    let close = double_close(s, 1);
    quoted_parse(s, '"', close, double_body(s.subrange(1, close)))
}

/// Reading a single- or else a double-quoted string from the start of `s`.
pub open spec fn string_parse(s: Seq<char>) -> Result<(Seq<char>, Seq<char>), QuoteError> {
    if s.len() > 0 && s[0] == '"' {
        double_quoted_parse(s)
    } else {
        single_quoted_parse(s)
    }
}

/// `r` holds, as strings, what `m` holds as character sequences.
pub open spec fn parse_matches(r: Result<(String, String), QuoteError>, m: Result<(Seq<char>, Seq<char>), QuoteError>) -> bool {
    match m {
        Ok((rest, value)) => match r {
            Ok((r_rest, r_value)) => r_rest@ == rest && r_value@ == value,
            Err(_) => false,
        },
        Err(e) => match r {
            Ok(_) => false,
            Err(e2) => e2 == e,
        },
    }
}

/// The character that a backslash followed by `c` stands for inside double quotes, if any.
pub fn escaped_char(c: char) -> (r: Option<char>)
    ensures
        r == escape_target(c),
{
    if c == '$' {
        Some('$')
    } else if c == '`' {
        Some('`')
    } else if c == '"' {
        Some('"')
    } else if c == 'n' {
        Some('\n')
    } else if c == '\\' {
        Some('\\')
    } else {
        None
    }
}

/// Whether a line continuation begins at position `i` of `v`.
pub fn is_line_continuation(v: &Vec<char>, i: usize) -> (r: bool)
    ensures
        r == continuation_at(v@, i as int),
{
    i < v.len() && v.len() - i >= 2 && v[i] == '\\' && v[i + 1] == '\n'
}

/// The value of the single-quoted body held in `v` from position `from` up to `to`.
fn decode_single_range(v: &Vec<char>, from: usize, to: usize) -> (r: String)
    requires
        from <= to <= v.len(),
    ensures
        r@ == single_body(v@.subrange(from as int, to as int)),
{
    let mut out = String::new();
    let mut i: usize = from;
    while i < to
        invariant
            from <= i <= to <= v.len(),
            out@ + single_body(v@.subrange(i as int, to as int)) == single_body(
                v@.subrange(from as int, to as int),
            ),
        decreases to - i,
    {
        let ghost s = v@.subrange(i as int, to as int);
        let ghost before = out@;
        if to - i >= 2 && is_line_continuation(v, i) {
            assert(s.skip(2) =~= v@.subrange(i + 2, to as int));
            i = i + 2;
        } else {
            out.push(v[i]);
            assert(s.skip(1) =~= v@.subrange(i + 1, to as int));
            assert(before + (seq![s[0]] + single_body(s.skip(1))) =~= out@ + single_body(s.skip(1)));
            i = i + 1;
        }
    }
    assert(v@.subrange(i as int, to as int) =~= Seq::<char>::empty());
    assert(out@ + Seq::<char>::empty() =~= out@);
    out
}

/// The value of the double-quoted body held in `v` from position `from` up to `to`.
fn decode_double_range(v: &Vec<char>, from: usize, to: usize) -> (r: String)
    requires
        from <= to <= v.len(),
    ensures
        r@ == double_body(v@.subrange(from as int, to as int)),
{
    let mut out = String::new();
    let mut i: usize = from;
    while i < to
        invariant
            from <= i <= to <= v.len(),
            out@ + double_body(v@.subrange(i as int, to as int)) == double_body(
                v@.subrange(from as int, to as int),
            ),
        decreases to - i,
    {
        let ghost s = v@.subrange(i as int, to as int);
        let ghost before = out@;
        if to - i >= 2 && is_line_continuation(v, i) {
            assert(s.skip(2) =~= v@.subrange(i + 2, to as int));
            i = i + 2;
        } else {
            let resolved = if to - i >= 2 && v[i] == '\\' {
                escaped_char(v[i + 1])
            } else {
                None
            };
            match resolved {
                Some(e) => {
                    out.push(e);
                    assert(escape_at(s, 0));
                    assert(s.skip(2) =~= v@.subrange(i + 2, to as int));
                    assert(before + (seq![e] + double_body(s.skip(2))) =~= out@ + double_body(s.skip(2)));
                    i = i + 2;
                },
                None => {
                    out.push(v[i]);
                    assert(!escape_at(s, 0));
                    assert(s.skip(1) =~= v@.subrange(i + 1, to as int));
                    assert(before + (seq![s[0]] + double_body(s.skip(1))) =~= out@ + double_body(s.skip(1)));
                    i = i + 1;
                },
            }
        }
    }
    assert(v@.subrange(i as int, to as int) =~= Seq::<char>::empty());
    assert(out@ + Seq::<char>::empty() =~= out@);
    out
}

/// The value of the body of a single-quoted string, given without its quotes.
pub fn decode_single_quoted(body: &str) -> (r: String)
    ensures
        r@ == single_body(body@),
{
    let v = chars_of(body);
    let r = decode_single_range(&v, 0, v.len());
    assert(v@.subrange(0, v@.len() as int) =~= body@);
    r
}

/// The value of the body of a double-quoted string, given without its quotes.
pub fn decode_double_quoted(body: &str) -> (r: String)
    ensures
        r@ == double_body(body@),
{
    let v = chars_of(body);
    let r = decode_double_range(&v, 0, v.len());
    assert(v@.subrange(0, v@.len() as int) =~= body@);
    r
}

/// The position of the first single quote in `v` at or after `from`.
fn find_single_close(v: &Vec<char>, from: usize) -> (r: Option<usize>)
    ensures
        match r {
            Some(k) => k as int == single_close(v@, from as int) && from <= k < v.len(),
            None => single_close(v@, from as int) < 0,
        },
{
    let mut i: usize = from;
    while i < v.len()
        invariant
            from <= i,
            single_close(v@, i as int) == single_close(v@, from as int),
        decreases v.len() - i,
    {
        if v[i] == '\'' {
            return Some(i);
        }
        i = i + 1;
    }
    None
}

/// The position of the double quote that closes a body read from position `from` of `v`.
fn find_double_close(v: &Vec<char>, from: usize) -> (r: Option<usize>)
    ensures
        match r {
            Some(k) => k as int == double_close(v@, from as int) && from <= k < v.len(),
            None => double_close(v@, from as int) < 0,
        },
{
    let mut i: usize = from;
    while i < v.len()
        invariant
            from <= i,
            double_close(v@, i as int) == double_close(v@, from as int),
        decreases v.len() - i,
    {
        if v[i] == '"' {
            return Some(i);
        }
        if v.len() - i >= 2 && v[i] == '\\' && (v[i + 1] == '\n' || escaped_char(v[i + 1]).is_some()) {
            i = i + 2;
        } else {
            i = i + 1;
        }
    }
    None
}

/// Reads a single-quoted string from the start of `input`: gives the input left after the
/// closing quote and the value of the string.
pub fn parse_single_quoted_string(input: &str) -> (r: Result<(String, String), QuoteError>)
    ensures
        parse_matches(r, single_quoted_parse(input@)),
{
    let v = chars_of(input);
    if v.len() == 0 || v[0] != '\'' {
        return Err(QuoteError::NotQuoted);
    }
    match find_single_close(&v, 1) {
        None => Err(QuoteError::Unterminated),
        Some(close) => {
            let value = decode_single_range(&v, 1, close);
            let rest = string_of_range(&v, close + 1, v.len());
            assert(v@.subrange(close + 1, v@.len() as int) =~= v@.skip(close + 1));
            Ok((rest, value))
        },
    }
}

/// Reads a double-quoted string from the start of `input`: gives the input left after the
/// closing quote and the value of the string.
pub fn parse_double_quoted_string(input: &str) -> (r: Result<(String, String), QuoteError>)
    ensures
        parse_matches(r, double_quoted_parse(input@)),
{
    let v = chars_of(input);
    if v.len() == 0 || v[0] != '"' {
        return Err(QuoteError::NotQuoted);
    }
    match find_double_close(&v, 1) {
        None => Err(QuoteError::Unterminated),
        Some(close) => {
            let value = decode_double_range(&v, 1, close);
            let rest = string_of_range(&v, close + 1, v.len());
            assert(v@.subrange(close + 1, v@.len() as int) =~= v@.skip(close + 1));
            Ok((rest, value))
        },
    }
}

/// Reads a double-quoted string if `input` begins with a double quote, else a single-quoted
/// one.
pub fn parse_string(input: &str) -> (r: Result<(String, String), QuoteError>)
    ensures
        parse_matches(r, string_parse(input@)),
{
    let v = chars_of(input);
    if v.len() > 0 && v[0] == '"' {
        parse_double_quoted_string(input)
    } else {
        parse_single_quoted_string(input)
    }
}

} // verus!
