//! The token-recognition rules, stated one input character at a time.
//!
//! `step` says what one character does to the token being read, in the order of priority of
//! the rules; `run` applies steps until a token is delimited, the input ends, or an error
//! comes up. `next_token` is what the lexer produces from a given position of the source.
use vstd::prelude::*;
use crate::error::LexerError;
use crate::tables::{begins_operator, operators, prefix_of_entry};
use crate::text::blank;

verus! {

/// What the lexer remembers while reading one token.
pub struct ContextModel {
    /// Open quotes, innermost last.
    pub quotes: Seq<char>,
    /// Characters that close the open substitutions, innermost last.
    pub closers: Seq<char>,
    /// The token has begun as an operator.
    pub operator: bool,
    /// The next character is taken literally (it follows a backslash).
    pub escaped: bool,
    /// The characters up to the next newline are a comment.
    pub comment: bool,
}

/// The context in which each token begins.
pub open spec fn fresh_context() -> ContextModel {
    ContextModel { quotes: seq![], closers: seq![], operator: false, escaped: false, comment: false }
}

/// Whatever is open belongs to a token that has begun.
pub open spec fn context_within_token(ctx: ContextModel, text: Seq<char>) -> bool {
    (ctx.quotes.len() > 0 || ctx.closers.len() > 0 || ctx.operator || ctx.escaped) ==> text.len() > 0
}

/// A token as read from a source: its text, and the character positions `first .. end` of the
/// source that it was read from.
pub struct TokenModel {
    pub text: Seq<char>,
    pub first: int,
    pub end: int,
}

/// The effect of one character.
pub enum Step {
    /// Reading goes on at `next` with a new context, text and first position.
    Advance { next: int, ctx: ContextModel, text: Seq<char>, first: int },
    /// The token ends before the current character; reading of the next token starts at `next`.
    Finish { next: int },
    /// Reading fails.
    Fail { err: LexerError },
}

/// One character inside a command, parameter or arithmetic substitution: everything is kept
/// verbatim, while quotes, backslashes and nested openers are followed to find the closer.
pub open spec fn substitution_step(src: Seq<char>, i: int, ctx: ContextModel, text: Seq<char>, first: int) -> Step
    recommends
        0 <= i < src.len(),
        ctx.closers.len() > 0,
{
    let c = src[i];
    let closer = ctx.closers.last();
    let keep = Step::Advance { next: i + 1, ctx, text: text.push(c), first };
    if ctx.escaped {
        Step::Advance { next: i + 1, ctx: ContextModel { escaped: false, ..ctx }, text: text.push(c), first }
    } else if ctx.quotes.len() > 0 {
        if c == ctx.quotes.last() {
            Step::Advance {
                next: i + 1,
                ctx: ContextModel { quotes: ctx.quotes.drop_last(), ..ctx },
                text: text.push(c),
                first,
            }
        } else if c == '\\' && ctx.quotes.last() == '"' {
            Step::Advance { next: i + 1, ctx: ContextModel { escaped: true, ..ctx }, text: text.push(c), first }
        } else {
            keep
        }
    } else if c == '\\' {
        Step::Advance { next: i + 1, ctx: ContextModel { escaped: true, ..ctx }, text: text.push(c), first }
    } else if c == closer {
        Step::Advance {
            next: i + 1,
            ctx: ContextModel { closers: ctx.closers.drop_last(), ..ctx },
            text: text.push(c),
            first,
        }
    } else if c == '\'' || c == '"' {
        Step::Advance {
            next: i + 1,
            ctx: ContextModel { quotes: ctx.quotes.push(c), ..ctx },
            text: text.push(c),
            first,
        }
    } else if c == '$' && i + 1 < src.len() && (src[i + 1] == '(' || src[i + 1] == '{') {
        Step::Advance {
            next: i + 2,
            ctx: ContextModel { closers: ctx.closers.push(closer_of(src[i + 1])), ..ctx },
            text: text.push(c).push(src[i + 1]),
            first,
        }
    } else if c == '`' || (c == '(' && closer == ')') || (c == '{' && closer == '}') {
        Step::Advance {
            next: i + 1,
            ctx: ContextModel { closers: ctx.closers.push(closer_of(c)), ..ctx },
            text: text.push(c),
            first,
        }
    } else {
        keep
    }
}

/// The character that closes a substitution opened by `c`.
pub open spec fn closer_of(c: char) -> char {
    if c == '(' {
        ')'
    } else if c == '{' {
        '}'
    } else {
        c
    }
}

/// One character of the source, at position `i`: the first rule that applies, in order of
/// priority, decides.
pub open spec fn step(src: Seq<char>, i: int, ctx: ContextModel, text: Seq<char>, first: int) -> Step
    recommends
        0 <= i < src.len(),
{
    let c = src[i];
    let quoted = ctx.quotes.len() > 0;
    let start = if text.len() == 0 { i } else { first };
    if ctx.comment {
        // a comment runs up to the newline; the newline, a blank before any token, goes with it
        Step::Advance { next: i + 1, ctx: ContextModel { comment: c != '\n', ..ctx }, text, first }
    } else if ctx.closers.len() > 0 {
        substitution_step(src, i, ctx, text, first)
    } else if ctx.escaped {
        // the character after a backslash is taken literally
        Step::Advance { next: i + 1, ctx: ContextModel { escaped: false, ..ctx }, text: text.push(c), first }
    } else if ctx.operator && !quoted && prefix_of_entry(text.push(c), operators()) {
        // operator continuation: a longer operator is still reachable
        Step::Advance { next: i + 1, ctx, text: text.push(c), first }
    } else if ctx.operator {
        // operator termination
        Step::Finish { next: i }
    } else if !quoted && (c == '\'' || c == '"') {
        // quote open; the quote stays in the text
        Step::Advance {
            next: i + 1,
            ctx: ContextModel { quotes: ctx.quotes.push(c), ..ctx },
            text: text.push(c),
            first: start,
        }
    } else if quoted && c == ctx.quotes.last() {
        // quote close
        Step::Advance {
            next: i + 1,
            ctx: ContextModel { quotes: ctx.quotes.drop_last(), ..ctx },
            text: text.push(c),
            first,
        }
    } else if quoted && c == '\\' && ctx.quotes.last() == '"' {
        // inside double quotes a backslash escapes the next character, so `\"` does not close
        Step::Advance { next: i + 1, ctx: ContextModel { escaped: true, ..ctx }, text: text.push(c), first }
    } else if !quoted && c == '\\' {
        // escape: a line continuation is removed, any other escaped character is kept
        if i + 1 >= src.len() {
            Step::Fail { err: LexerError::UnmatchedEscapeSequence }
        } else if src[i + 1] == '\n' {
            Step::Advance { next: i + 2, ctx, text, first }
        } else {
            Step::Advance {
                next: i + 1,
                ctx: ContextModel { escaped: true, ..ctx },
                text: text.push(c),
                first: start,
            }
        }
    } else if !quoted && c == '$' && i + 1 < src.len() && (src[i + 1] == '(' || src[i + 1] == '{') {
        // `$(`, `$((` or `${` opens a substitution; a `$` before anything else is a word character
        Step::Advance {
            next: i + 2,
            ctx: ContextModel { closers: ctx.closers.push(closer_of(src[i + 1])), ..ctx },
            text: text.push(c).push(src[i + 1]),
            first: start,
        }
    } else if !quoted && c == '`' {
        Step::Advance {
            next: i + 1,
            ctx: ContextModel { closers: ctx.closers.push(c), ..ctx },
            text: text.push(c),
            first: start,
        }
    } else if !quoted && begins_operator(c) {
        // operator start: it delimits a word that has begun
        if text.len() > 0 {
            Step::Finish { next: i }
        } else {
            Step::Advance { next: i + 1, ctx: ContextModel { operator: true, ..ctx }, text: text.push(c), first: i }
        }
    } else if !quoted && blank(c) {
        // a blank delimits a token that has begun and is discarded
        if text.len() > 0 {
            Step::Finish { next: i + 1 }
        } else {
            Step::Advance { next: i + 1, ctx, text, first }
        }
    } else if text.len() > 0 {
        // word continuation
        Step::Advance { next: i + 1, ctx, text: text.push(c), first }
    } else if c == '#' {
        // comment start
        Step::Advance { next: i + 1, ctx: ContextModel { comment: true, ..ctx }, text, first }
    } else {
        // word start
        Step::Advance { next: i + 1, ctx, text: text.push(c), first: i }
    }
}

/// What the end of the input does to the token being read.
pub open spec fn at_end(len: int, ctx: ContextModel, text: Seq<char>, first: int) -> Result<TokenModel, LexerError> {
    if ctx.closers.len() > 0 {
        Err(LexerError::UnterminatedSubstitution)
    } else if ctx.quotes.len() > 0 || ctx.escaped {
        Err(LexerError::UnterminatedQuote)
    } else if text.len() == 0 {
        Err(LexerError::EndOfText)
    } else {
        Ok(TokenModel { text, first, end: len })
    }
}

/// Reads from position `i` on, in the given state, until a token is delimited or reading
/// fails; gives the outcome and the position at which reading of the next token starts.
pub open spec fn run(src: Seq<char>, i: int, ctx: ContextModel, text: Seq<char>, first: int) -> (Result<TokenModel, LexerError>, int)
    decreases src.len() - i,
{
    if i < 0 || i >= src.len() {
        (at_end(src.len() as int, ctx, text, first), i)
    } else {
        match step(src, i, ctx, text, first) {
            Step::Advance { next, ctx: c2, text: t2, first: f2 } => {
                if i < next {
                    run(src, next, c2, t2, f2)
                } else {
                    (Err(LexerError::EndOfText), i)
                }
            },
            Step::Finish { next } => (Ok(TokenModel { text, first, end: i }), next),
            Step::Fail { err } => (Err(err), i),
        }
    }
}

/// The token read from position `pos` of `src`, and where reading of the next one starts.
pub open spec fn next_token(src: Seq<char>, pos: int) -> (Result<TokenModel, LexerError>, int) {
    run(src, pos, fresh_context(), seq![], 0)
}

} // verus!
