use hsh_parse::context::LexerContext;
use hsh_parse::cursor::Cursor;
use hsh_parse::text::{chars_of, is_blank, string_of};
use hsh_parse::utf8::utf8_width;

#[test]
fn cursor_tracks_byte_offsets() {
    let mut cursor = Cursor::new("aé☺x");
    assert_eq!(cursor.peek(), Some((0, 'a')));
    assert_eq!(cursor.peek_second(), Some('é'));
    assert_eq!(cursor.offset(), 0);
    assert_eq!(cursor.advance(), 'a');
    assert_eq!(cursor.offset(), 1);
    assert_eq!(cursor.advance(), 'é');
    assert_eq!(cursor.offset(), 3);
    assert_eq!(cursor.advance(), '☺');
    assert_eq!(cursor.offset(), 6);
    assert_eq!(cursor.index(), 3);
    assert_eq!(cursor.peek(), Some((6, 'x')));
    assert_eq!(cursor.peek_second(), None);
    assert_eq!(cursor.advance(), 'x');
    assert_eq!(cursor.peek(), None);
    assert_eq!(cursor.offset(), 7);
}

#[test]
fn context_starts_fresh() {
    let mut ctx = LexerContext::new();
    assert!(!ctx.quoted());
    ctx.quotes.push('"');
    ctx.operator = true;
    assert!(ctx.quoted());
    assert_eq!(ctx.quote(), '"');
    ctx.closers.push(')');
    assert_eq!(ctx.closer(), ')');
    ctx.reset();
    assert!(!ctx.quoted());
    assert!(!ctx.operator && !ctx.escaped && !ctx.comment);
    assert!(ctx.closers.is_empty());
}

#[test]
fn character_helpers() {
    assert_eq!(utf8_width('a'), 1);
    assert_eq!(utf8_width('é'), 2);
    assert_eq!(utf8_width('☺'), 3);
    assert_eq!(utf8_width('😀'), 4);
    for c in [' ', '\t', '\n', '\r', '\u{a0}', '\u{3000}', '\u{2028}'] {
        assert!(is_blank(c));
        assert!(c.is_whitespace());
    }
    for c in ['a', '_', '\u{200b}', '#'] {
        assert!(!is_blank(c));
    }
    let chars = chars_of("héllo");
    assert_eq!(chars, vec!['h', 'é', 'l', 'l', 'o']);
    assert_eq!(string_of(&chars), "héllo");
}
