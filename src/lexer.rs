//! The lexer: produces one token per call from a source text.
use vstd::prelude::*;
use crate::context::LexerContext;
use crate::cursor::Cursor;
use crate::error::LexerError;
use crate::rules::{context_within_token, next_token, run, step, substitution_step, Step, TokenModel};
use crate::spans::lemma_token_round_trip;
use crate::tables::{extends_operator, is_operator_begin};
use crate::text::{is_blank, string_of};
use crate::utf8::{byte_len, lemma_byte_len_concat, lemma_byte_len_take_mono};

verus! {

/// A token: its text, and the bytes of the source it was read from.
#[derive(Debug)]
pub struct Token {
    /// The characters of the token, with its unquoted line continuations removed.
    pub text: String,
    /// The byte offset in the source where the token begins.
    pub start: usize,
    /// The number of bytes of the source that the token was read from.
    pub span_length: usize,
}

/// `tok` is the token that `m` describes in `src`, with byte offsets in place of character
/// positions.
pub open spec fn token_matches(src: Seq<char>, tok: Token, m: TokenModel) -> bool {
    &&& tok.text@ == m.text
    &&& tok.start == byte_len(src.take(m.first))
    &&& tok.span_length == byte_len(src.subrange(m.first, m.end))
}

/// `r` is the outcome that `m` describes in `src`.
pub open spec fn outcome_matches(src: Seq<char>, r: Result<Token, LexerError>, m: Result<TokenModel, LexerError>) -> bool {
    match m {
        Ok(t) => match r {
            Ok(tok) => token_matches(src, tok, t),
            Err(_) => false,
        },
        Err(e) => match r {
            Ok(_) => false,
            Err(e2) => e2 == e,
        },
    }
}

/// What one character did.
enum StepOutcome {
    Advanced,
    Finished,
    Failed(LexerError),
}

/// A lexer over one source text: a forward-only cursor.
pub struct Lexer {
    cursor: Cursor,
}

impl Lexer {
    /// The characters of the source.
    pub closed spec fn source(&self) -> Seq<char> {
        self.cursor.source()
    }

    /// The number of characters consumed so far.
    pub closed spec fn position(&self) -> int {
        self.cursor.position()
    }

    /// The cursor is well formed.
    pub closed spec fn wf(&self) -> bool {
        self.cursor.wf()
    }

    /// A lexer at the start of `source`.
    pub fn new(source: &str) -> (r: Lexer)
        ensures
            r.wf(),
            r.source() == source@,
            r.position() == 0,
    {
        Lexer { cursor: Cursor::new(source) }
    }

    /// Produces the next token, `EndOfText` when only blanks and comments are left, or the
    /// error that stops reading. After a token or `EndOfText` the lexer stands where reading of
    /// the next token starts; after another error it must not be used again.
    pub fn next(&mut self) -> (r: Result<Token, LexerError>)
        requires
            old(self).wf(),
        ensures
            final(self).wf(),
            final(self).source() == old(self).source(),
            outcome_matches(old(self).source(), r, next_token(old(self).source(), old(self).position()).0),
            (r is Ok || r == Err::<Token, LexerError>(LexerError::EndOfText)) ==> final(self).position()
                == next_token(old(self).source(), old(self).position()).1,
            r is Ok ==> 0 < r->Ok_0.span_length && byte_len(r->Ok_0.text@) <= r->Ok_0.span_length,
    {
        let ghost src = self.source();
        let ghost pos = self.position();
        let ghost target = next_token(src, pos);
        let mut ctx = LexerContext::new();
        let mut text: Vec<char> = Vec::new();
        let mut first: usize = 0;
        let mut first_byte: usize = 0;
        proof {
            self.cursor.lemma_within();
        }
        loop
            invariant
                self.wf(),
                self.source() == src,
                old(self).source() == src,
                0 <= pos <= src.len(),
                pos == old(self).position(),
                target == next_token(old(self).source(), old(self).position()),
                0 <= self.position() <= src.len(),
                run(src, self.position(), ctx@, text@, first as int) == target,
                context_within_token(ctx@, text@),
                text@.len() > 0 ==> first < self.position() && first_byte == byte_len(src.take(first as int)),
            decreases src.len() - self.position(),
        {
            if self.cursor.peek().is_none() {
                if ctx.closers.len() > 0 {
                    return Err(LexerError::UnterminatedSubstitution);
                }
                if ctx.quoted() || ctx.escaped {
                    return Err(LexerError::UnterminatedQuote);
                }
                if text.len() == 0 {
                    return Err(LexerError::EndOfText);
                }
                let tok = self.get_token(&text, first, first_byte);
                proof {
                    lemma_token_round_trip(src, pos, tok);
                }
                return Ok(tok);
            }
            let i = self.cursor.index();
            let here = self.cursor.offset();
            let ghost old_ctx = ctx@;
            let ghost old_text = text@;
            let ghost old_first = first;
            match self.read_char(&mut ctx, &mut text, &mut first, &mut first_byte) {
                StepOutcome::Advanced => {},
                StepOutcome::Finished => {
                    let tok = self.token_ending_at(&text, first, first_byte, i, here);
                    proof {
                        assert(target == run(src, i as int, old_ctx, old_text, old_first as int));
                        assert(target.0 == Ok::<TokenModel, LexerError>(
                            TokenModel { text: old_text, first: old_first as int, end: i as int },
                        ));
                        lemma_token_round_trip(src, pos, tok);
                    }
                    return Ok(tok);
                },
                StepOutcome::Failed(e) => {
                    return Err(e);
                },
            }
        }
    }

    /// The characters of the source from position `from` up to `to`: the raw text of a region,
    /// as it stands before line continuations are removed.
    pub fn get_str(&self, from: usize, to: usize) -> (r: String)
        requires
            self.wf(),
            from <= to <= self.source().len(),
        ensures
            r@ == self.source().subrange(from as int, to as int),
    {
        self.cursor.text_between(from, to)
    }

    /// The token with the given text, read from position `first` (at byte offset
    /// `first_byte`) up to the current position.
    pub fn get_token(&self, text: &Vec<char>, first: usize, first_byte: usize) -> (r: Token)
        requires
            self.wf(),
            first <= self.position(),
            first_byte == byte_len(self.source().take(first as int)),
        ensures
            token_matches(self.source(), r, TokenModel { text: text@, first: first as int, end: self.position() }),
    {
        proof {
            self.cursor.lemma_within();
        }
        self.token_ending_at(text, first, first_byte, self.cursor.index(), self.cursor.offset())
    }

    /// The token with the given text, read from position `first` (at byte offset
    /// `first_byte`) up to position `end` (at byte offset `end_byte`).
    fn token_ending_at(&self, text: &Vec<char>, first: usize, first_byte: usize, end: usize, end_byte: usize) -> (r: Token)
        requires
            self.wf(),
            first <= end <= self.source().len(),
            first_byte == byte_len(self.source().take(first as int)),
            end_byte == byte_len(self.source().take(end as int)),
        ensures
            token_matches(self.source(), r, TokenModel { text: text@, first: first as int, end: end as int }),
    {
        proof {
            self.lemma_span_at(end as int, first as int);
        }
        Token { text: string_of(text), start: first_byte, span_length: end_byte - first_byte }
    }

    /// The bytes between two positions.
    proof fn lemma_span_at(&self, end: int, first: int)
        requires
            self.wf(),
            0 <= first <= end <= self.source().len(),
        ensures
            byte_len(self.source().take(first)) <= byte_len(self.source().take(end)),
            byte_len(self.source().subrange(first, end)) == byte_len(self.source().take(end)) - byte_len(
                self.source().take(first),
            ),
    {
        let s = self.source();
        lemma_byte_len_take_mono(s, first, end);
        assert(s.take(end) =~= s.take(first) + s.subrange(first, end));
        lemma_byte_len_concat(s.take(first), s.subrange(first, end));
    }

    /// Records the current position as the token's first one, unless the token has begun.
    fn mark_start(&self, text: &Vec<char>, first: &mut usize, first_byte: &mut usize)
        requires
            self.wf(),
        ensures
            text@.len() == 0 ==> *final(first) == self.position() && *final(first_byte) == byte_len(
                self.source().take(self.position()),
            ),
            text@.len() > 0 ==> *final(first) == *old(first) && *final(first_byte) == *old(first_byte),
    {
        if text.len() == 0 {
            *first = self.cursor.index();
            *first_byte = self.cursor.offset();
        }
    }

    /// Reads one character inside a substitution.
    fn read_substitution_char(&mut self, ctx: &mut LexerContext, text: &mut Vec<char>) -> (r: StepOutcome)
        requires
            old(self).wf(),
            old(self).position() < old(self).source().len(),
            old(ctx)@.closers.len() > 0,
        ensures
            final(self).wf(),
            final(self).source() == old(self).source(),
            final(self).position() > old(self).position(),
            r is Advanced,
            forall|first: int|
                substitution_step(old(self).source(), old(self).position(), old(ctx)@, old(text)@, first)
                    == (Step::Advance {
                    next: final(self).position(),
                    ctx: final(ctx)@,
                    text: final(text)@,
                    first,
                }),
    {
        let c = self.cursor.advance();
        if ctx.escaped {
            ctx.escaped = false;
            text.push(c);
        } else if ctx.quoted() {
            if c == ctx.quote() {
                ctx.quotes.pop();
            } else if c == '\\' && ctx.quote() == '"' {
                ctx.escaped = true;
            }
            text.push(c);
        } else if c == '\\' {
            ctx.escaped = true;
            text.push(c);
        } else if c == ctx.closer() {
            ctx.closers.pop();
            text.push(c);
        } else if c == '\'' || c == '"' {
            ctx.quotes.push(c);
            text.push(c);
        } else if c == '$' && self.opens_substitution() {
            let d = self.cursor.advance();
            ctx.closers.push(if d == '(' { ')' } else { '}' });
            text.push(c);
            text.push(d);
        } else if c == '`' || (c == '(' && ctx.closer() == ')') || (c == '{' && ctx.closer() == '}') {
            ctx.closers.push(if c == '(' { ')' } else if c == '{' { '}' } else { c });
            text.push(c);
        } else {
            text.push(c);
        }
        StepOutcome::Advanced
    }

    /// Whether the next character opens a parenthesised or braced substitution.
    fn opens_substitution(&self) -> (r: bool)
        requires
            self.wf(),
        ensures
            r == (self.position() < self.source().len() && (self.source()[self.position()] == '('
                || self.source()[self.position()] == '{')),
    {
        match self.cursor.peek() {
            Some((_, d)) => d == '(' || d == '{',
            None => false,
        }
    }

    /// Reads one character, or decides that the token ends before it.
    fn read_char(
        &mut self,
        ctx: &mut LexerContext,
        text: &mut Vec<char>,
        first: &mut usize,
        first_byte: &mut usize,
    ) -> (r: StepOutcome)
        requires
            old(self).wf(),
            old(self).position() < old(self).source().len(),
            context_within_token(old(ctx)@, old(text)@),
        ensures
            final(self).wf(),
            final(self).source() == old(self).source(),
            context_within_token(final(ctx)@, final(text)@),
            ({
                let s = step(old(self).source(), old(self).position(), old(ctx)@, old(text)@, *old(first) as int);
                match r {
                    StepOutcome::Advanced => {
                        &&& s == Step::Advance {
                            next: final(self).position(),
                            ctx: final(ctx)@,
                            text: final(text)@,
                            first: *final(first) as int,
                        }
                        &&& final(self).position() > old(self).position()
                    },
                    StepOutcome::Finished => {
                        &&& s == Step::Finish { next: final(self).position() }
                        &&& final(text)@ == old(text)@
                    },
                    StepOutcome::Failed(e) => s == Step::Fail { err: e },
                }
            }),
            old(text)@.len() > 0 ==> *final(first) == *old(first) && *final(first_byte) == *old(first_byte),
            old(text)@.len() == 0 && final(text)@.len() > 0 ==> *final(first) == old(self).position()
                && *final(first_byte) == byte_len(old(self).source().take(old(self).position())),
    {
        let ghost src = self.source();
        let ghost i = self.position();
        let c = self.cursor.peek().unwrap().1;
        let quoted = ctx.quoted();
        if ctx.comment {
            self.cursor.advance();
            ctx.comment = c != '\n';
            return StepOutcome::Advanced;
        }
        if ctx.closers.len() > 0 {
            return self.read_substitution_char(ctx, text);
        }
        if ctx.escaped {
            self.cursor.advance();
            ctx.escaped = false;
            text.push(c);
            return StepOutcome::Advanced;
        }
        if ctx.operator && !quoted && extends_operator(text, c) {
            self.cursor.advance();
            text.push(c);
            return StepOutcome::Advanced;
        }
        if ctx.operator {
            return StepOutcome::Finished;
        }
        if !quoted && (c == '\'' || c == '"') {
            self.mark_start(text, first, first_byte);
            self.cursor.advance();
            ctx.quotes.push(c);
            text.push(c);
            return StepOutcome::Advanced;
        }
        if quoted && c == ctx.quote() {
            self.cursor.advance();
            ctx.quotes.pop();
            text.push(c);
            return StepOutcome::Advanced;
        }
        if quoted && c == '\\' && ctx.quote() == '"' {
            self.cursor.advance();
            ctx.escaped = true;
            text.push(c);
            return StepOutcome::Advanced;
        }
        if !quoted && c == '\\' {
            match self.cursor.peek_second() {
                None => {
                    return StepOutcome::Failed(LexerError::UnmatchedEscapeSequence);
                },
                Some(d) => {
                    if d == '\n' {
                        self.cursor.advance();
                        self.cursor.advance();
                    } else {
                        self.mark_start(text, first, first_byte);
                        self.cursor.advance();
                        ctx.escaped = true;
                        text.push(c);
                    }
                    return StepOutcome::Advanced;
                },
            }
        }
        if !quoted && c == '$' {
            match self.cursor.peek_second() {
                Some(d) => {
                    if d == '(' || d == '{' {
                        self.mark_start(text, first, first_byte);
                        self.cursor.advance();
                        self.cursor.advance();
                        ctx.closers.push(if d == '(' { ')' } else { '}' });
                        text.push(c);
                        text.push(d);
                        return StepOutcome::Advanced;
                    }
                },
                None => {},
            }
        }
        if !quoted && c == '`' {
            self.mark_start(text, first, first_byte);
            self.cursor.advance();
            ctx.closers.push(c);
            text.push(c);
            return StepOutcome::Advanced;
        }
        if !quoted && is_operator_begin(c) {
            if text.len() > 0 {
                return StepOutcome::Finished;
            }
            self.mark_start(text, first, first_byte);
            self.cursor.advance();
            ctx.operator = true;
            text.push(c);
            return StepOutcome::Advanced;
        }
        if !quoted && is_blank(c) {
            if text.len() > 0 {
                self.cursor.advance();
                return StepOutcome::Finished;
            }
            self.cursor.advance();
            return StepOutcome::Advanced;
        }
        if text.len() > 0 {
            self.cursor.advance();
            text.push(c);
            return StepOutcome::Advanced;
        }
        if c == '#' {
            self.cursor.advance();
            ctx.comment = true;
            return StepOutcome::Advanced;
        }
        self.mark_start(text, first, first_byte);
        self.cursor.advance();
        text.push(c);
        StepOutcome::Advanced
    }
}

} // verus!
