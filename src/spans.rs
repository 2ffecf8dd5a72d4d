//! Where tokens come from: each token is read from one region of the source, its text is that
//! region with some line continuations removed, and its byte offsets fall on character
//! boundaries.
use vstd::prelude::*;
use vstd::utf8::encode_utf8;
use crate::lexer::{outcome_matches, Token};
use crate::rules::{context_within_token, fresh_context, next_token, run, step, ContextModel, Step};
use crate::utf8::{byte_len, lemma_byte_len_concat, lemma_byte_len_push, lemma_encode_concat};

verus! {

/// `text` is `raw` with some line continuations (a backslash followed by a newline) removed.
pub open spec fn drops_continuations(raw: Seq<char>, text: Seq<char>) -> bool
    decreases raw.len(),
{
    if raw.len() == 0 {
        text.len() == 0
    } else {
        ||| (raw.len() >= 2 && raw[raw.len() - 2] == '\\' && raw.last() == '\n' && drops_continuations(
            raw.take(raw.len() - 2),
            text,
        ))
        ||| (text.len() > 0 && text.last() == raw.last() && drops_continuations(
            raw.drop_last(),
            text.drop_last(),
        ))
    }
}

proof fn lemma_drops_push(raw: Seq<char>, text: Seq<char>, c: char)
    requires
        drops_continuations(raw, text),
    ensures
        drops_continuations(raw.push(c), text.push(c)),
{
    assert(raw.push(c).drop_last() =~= raw);
    assert(text.push(c).drop_last() =~= text);
}

proof fn lemma_drops_continuation(raw: Seq<char>, text: Seq<char>)
    requires
        drops_continuations(raw, text),
    ensures
        drops_continuations(raw.push('\\').push('\n'), text),
{
    let r2 = raw.push('\\').push('\n');
    assert(r2.take(r2.len() - 2) =~= raw);
}

/// Removing line continuations never makes a text longer in bytes.
pub proof fn lemma_drops_byte_len(raw: Seq<char>, text: Seq<char>)
    requires
        drops_continuations(raw, text),
    ensures
        byte_len(text) <= byte_len(raw),
        text.len() <= raw.len(),
    decreases raw.len(),
{
    if raw.len() == 0 {
        assert(text =~= Seq::<char>::empty());
    } else if raw.len() >= 2 && raw[raw.len() - 2] == '\\' && raw.last() == '\n' && drops_continuations(
        raw.take(raw.len() - 2),
        text,
    ) {
        let rest = raw.take(raw.len() - 2);
        lemma_drops_byte_len(rest, text);
        assert(raw =~= rest + raw.subrange(raw.len() - 2, raw.len() as int));
        lemma_byte_len_concat(rest, raw.subrange(raw.len() - 2, raw.len() as int));
    } else {
        lemma_drops_byte_len(raw.drop_last(), text.drop_last());
        assert(raw.drop_last().push(raw.last()) =~= raw);
        assert(text.drop_last().push(text.last()) =~= text);
        lemma_byte_len_push(raw.drop_last(), raw.last());
        lemma_byte_len_push(text.drop_last(), text.last());
    }
}

/// What holds of the state while a token is read from position `i`.
pub open spec fn span_invariant(src: Seq<char>, i: int, ctx: ContextModel, text: Seq<char>, first: int) -> bool {
    &&& 0 <= i <= src.len()
    &&& context_within_token(ctx, text)
    &&& ctx.comment ==> text.len() == 0
    &&& text.len() > 0 ==> 0 <= first < i && drops_continuations(src.subrange(first, i), text)
}

/// One step keeps the invariant and moves forward.
proof fn lemma_step_keeps_span(src: Seq<char>, i: int, ctx: ContextModel, text: Seq<char>, first: int)
    requires
        i < src.len(),
        span_invariant(src, i, ctx, text, first),
    ensures
        match step(src, i, ctx, text, first) {
            Step::Advance { next, ctx: c2, text: t2, first: f2 } => i < next <= src.len()
                && span_invariant(src, next, c2, t2, f2),
            Step::Finish { next } => text.len() > 0 && i <= next <= src.len(),
            Step::Fail { .. } => true,
        },
{
    let c = src[i];
    if text.len() > 0 {
        let raw = src.subrange(first, i);
        lemma_drops_push(raw, text, c);
        assert(src.subrange(first, i + 1) =~= raw.push(c));
        if i + 1 < src.len() {
            lemma_drops_push(raw.push(c), text.push(c), src[i + 1]);
            assert(src.subrange(first, i + 2) =~= raw.push(c).push(src[i + 1]));
            if c == '\\' && src[i + 1] == '\n' {
                lemma_drops_continuation(raw, text);
            }
        }
    } else {
        lemma_drops_push(seq![], seq![], c);
        assert(src.subrange(i, i + 1) =~= Seq::<char>::empty().push(c));
        assert(text.push(c) =~= Seq::<char>::empty().push(c));
        if i + 1 < src.len() {
            lemma_drops_push(seq![c], seq![c], src[i + 1]);
            assert(src.subrange(i, i + 2) =~= seq![c].push(src[i + 1]));
            assert(text.push(c).push(src[i + 1]) =~= seq![c].push(src[i + 1]));
        }
    }
}

/// Whatever token reading yields lies within the source and is read from the region it names.
proof fn lemma_run_span(src: Seq<char>, i: int, ctx: ContextModel, text: Seq<char>, first: int)
    requires
        span_invariant(src, i, ctx, text, first),
    ensures
        run(src, i, ctx, text, first).0 is Ok ==> {
            let t = run(src, i, ctx, text, first).0->Ok_0;
            &&& 0 <= t.first < t.end <= run(src, i, ctx, text, first).1 <= src.len()
            &&& t.text.len() > 0
            &&& drops_continuations(src.subrange(t.first, t.end), t.text)
        },
    decreases src.len() - i,
{
    if i < src.len() {
        lemma_step_keeps_span(src, i, ctx, text, first);
        match step(src, i, ctx, text, first) {
            Step::Advance { next, ctx: c2, text: t2, first: f2 } => {
                lemma_run_span(src, next, c2, t2, f2);
            },
            _ => {},
        }
    }
}

/// The token read from any position names a region of the source, and its text is that region
/// with some line continuations removed.
pub proof fn lemma_next_token_span(src: Seq<char>, pos: int)
    requires
        0 <= pos <= src.len(),
    ensures
        next_token(src, pos).0 is Ok ==> {
            let t = next_token(src, pos).0->Ok_0;
            &&& pos <= t.first < t.end <= next_token(src, pos).1 <= src.len()
            &&& t.text.len() > 0
            &&& drops_continuations(src.subrange(t.first, t.end), t.text)
        },
{
    lemma_run_span(src, pos, fresh_context(), seq![], 0);
    lemma_run_first_after(src, pos, fresh_context(), seq![], 0, pos);
}

/// A token never begins before the position reading started from.
proof fn lemma_run_first_after(src: Seq<char>, i: int, ctx: ContextModel, text: Seq<char>, first: int, pos: int)
    requires
        span_invariant(src, i, ctx, text, first),
        pos <= i,
        text.len() > 0 ==> pos <= first,
    ensures
        run(src, i, ctx, text, first).0 is Ok ==> pos <= run(src, i, ctx, text, first).0->Ok_0.first,
    decreases src.len() - i,
{
    if i < src.len() {
        lemma_step_keeps_span(src, i, ctx, text, first);
        match step(src, i, ctx, text, first) {
            Step::Advance { next, ctx: c2, text: t2, first: f2 } => {
                lemma_run_first_after(src, next, c2, t2, f2, pos);
            },
            _ => {},
        }
    }
}

/// Reading is forward-only: after each token, reading of the next one starts strictly further
/// on, and never before the end of the token; so a source yields finitely many tokens.
pub proof fn lemma_next_token_advances(src: Seq<char>, pos: int)
    requires
        0 <= pos <= src.len(),
    ensures
        next_token(src, pos).0 is Ok ==> pos < next_token(src, pos).1 <= src.len()
            && next_token(src, pos).0->Ok_0.end <= next_token(src, pos).1,
{
    lemma_next_token_span(src, pos);
}

/// Every token that the lexer hands out is read from the bytes
/// `start .. start + span_length` of the source: those bytes are exactly the encoding of the
/// characters the token was read from, its text is those characters with some line
/// continuations removed, and so the text is never longer than the span.
pub proof fn lemma_token_round_trip(src: Seq<char>, pos: int, tok: Token)
    requires
        0 <= pos <= src.len(),
        outcome_matches(src, Ok(tok), next_token(src, pos).0),
    ensures
        ({
            let t = next_token(src, pos).0->Ok_0;
            &&& pos <= t.first < t.end <= src.len()
            &&& encode_utf8(src).subrange(tok.start as int, tok.start + tok.span_length) == encode_utf8(
                src.subrange(t.first, t.end),
            )
            &&& drops_continuations(src.subrange(t.first, t.end), tok.text@)
            &&& byte_len(tok.text@) <= tok.span_length
            &&& tok.span_length > 0
        }),
{
    lemma_next_token_span(src, pos);
    let t = next_token(src, pos).0->Ok_0;
    let a = src.take(t.first);
    let b = src.subrange(t.first, t.end);
    let c = src.skip(t.end);
    assert(src =~= a + b + c);
    lemma_encode_concat(a + b, c);
    lemma_encode_concat(a, b);
    let ea = encode_utf8(a);
    let eb = encode_utf8(b);
    let ec = encode_utf8(c);
    assert((ea + eb + ec).subrange(ea.len() as int, (ea.len() + eb.len()) as int) =~= eb);
    lemma_drops_byte_len(b, tok.text@);
    assert(b.len() > 0);
    assert(b =~= seq![b[0]] + b.drop_first());
    lemma_encode_concat(seq![b[0]], b.drop_first());
    assert(encode_utf8(seq![b[0]]).len() >= 1) by {
        assert(seq![b[0]].drop_first() =~= Seq::<char>::empty());
    }
}

/// Token offsets fall on character boundaries: the start and the end of each token are the
/// byte offsets of some character positions of the source.
pub proof fn lemma_token_boundaries(src: Seq<char>, pos: int, tok: Token)
    requires
        0 <= pos <= src.len(),
        outcome_matches(src, Ok(tok), next_token(src, pos).0),
    ensures
        exists|i: int, j: int|
            0 <= i < j <= src.len() && tok.start == byte_len(#[trigger] src.take(i)) && tok.start
                + tok.span_length == byte_len(#[trigger] src.take(j)),
{
    lemma_next_token_span(src, pos);
    let t = next_token(src, pos).0->Ok_0;
    assert(src.take(t.end) =~= src.take(t.first) + src.subrange(t.first, t.end));
    lemma_byte_len_concat(src.take(t.first), src.subrange(t.first, t.end));
    assert(tok.start + tok.span_length == byte_len(src.take(t.end)));
}

} // verus!
