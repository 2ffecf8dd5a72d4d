//! Laws of the token stream: blanks between tokens, and operator tokens.
use vstd::prelude::*;
use crate::error::LexerError;
use crate::rules::{context_within_token, fresh_context, next_token, run, step, ContextModel, Step};
use crate::tables::{
    begins_operator, is_operator, lemma_operator_begin_chars_exact, operator_begin_chars, operators,
    prefix_of_entry,
};
use crate::text::blank;

verus! {

/// A blank is neither a quote, a backslash, a substitution introducer nor an operator character.
proof fn lemma_blank_is_plain(c: char)
    requires
        blank(c),
    ensures
        !begins_operator(c),
        c != '\'' && c != '"' && c != '\\' && c != '$' && c != '`' && c != '#',
{
    lemma_operator_begin_chars_exact();
    let b = operator_begin_chars();
    assert(b[0] == '&' && b[1] == '|' && b[2] == ';' && b[3] == '<' && b[4] == '>' && b[5] == '('
        && b[6] == ')');
    assert(!b.contains(c));
}

/// Reading the next token from the start of a run of blanks gives the same token, and the same
/// next position, as reading it from the end of the run: however many blanks stand between two
/// tokens, they separate them as one blank does.
pub proof fn lemma_blank_run_skipped(src: Seq<char>, pos: int, k: int)
    requires
        0 <= pos <= k <= src.len(),
        forall|j: int| pos <= j < k ==> blank(#[trigger] src[j]),
    ensures
        next_token(src, pos) == next_token(src, k),
    decreases k - pos,
{
    if pos < k {
        lemma_blank_is_plain(src[pos]);
        assert(step(src, pos, fresh_context(), seq![], 0) == (Step::Advance {
            next: pos + 1,
            ctx: fresh_context(),
            text: seq![],
            first: 0,
        }));
        lemma_blank_run_skipped(src, pos + 1, k);
    }
}

/// Where nothing but blanks is left, the next outcome is `EndOfText`: trailing blanks give no
/// empty token.
pub proof fn lemma_trailing_blanks_end(src: Seq<char>, pos: int)
    requires
        0 <= pos <= src.len(),
        forall|j: int| pos <= j < src.len() ==> blank(#[trigger] src[j]),
    ensures
        next_token(src, pos).0 == Err::<crate::rules::TokenModel, LexerError>(LexerError::EndOfText),
{
    lemma_blank_run_skipped(src, pos, src.len() as int);
}

/// Every non-empty prefix of an operator is itself an operator.
proof fn lemma_operator_prefixes(s: Seq<char>)
    requires
        s.len() > 0,
        prefix_of_entry(s, operators()),
    ensures
        is_operator(s),
{
    let ops = operators();
    let i = choose|i: int| 0 <= i < ops.len() && s.is_prefix_of(#[trigger] ops[i]);
    assert(s =~= ops[i].subrange(0, s.len() as int));
    if s.len() == 1 {
        let k: int = if s[0] == '&' { 10 } else if s[0] == '|' { 11 } else if s[0] == '(' { 12 } else if s[0] == ')' {
            13
        } else if s[0] == ';' { 14 } else if s[0] == '<' { 15 } else { 16 };
        assert(ops[k] =~= s);
    } else if s.len() == 2 {
        let k: int = if i == 8 { 3 } else { i };
        assert(ops[k] =~= s);
    } else {
        assert(ops[i] =~= s);
    }
}

/// What holds of operator tokens while one is read.
spec fn operator_invariant(ctx: ContextModel, text: Seq<char>) -> bool {
    &&& context_within_token(ctx, text)
    &&& ctx.operator ==> prefix_of_entry(text, operators()) && ctx.quotes.len() == 0
        && ctx.closers.len() == 0 && !ctx.escaped && !ctx.comment
    &&& !ctx.operator && text.len() > 0 ==> !begins_operator(text[0])
    &&& ctx.comment ==> text.len() == 0
}

proof fn lemma_run_operator(src: Seq<char>, i: int, ctx: ContextModel, text: Seq<char>, first: int)
    requires
        operator_invariant(ctx, text),
    ensures
        run(src, i, ctx, text, first).0 is Ok ==> {
            let t = run(src, i, ctx, text, first).0->Ok_0;
            t.text.len() > 0 && begins_operator(t.text[0]) ==> is_operator(t.text)
        },
    decreases src.len() - i,
{
    lemma_operator_begin_chars_exact();
    let b = operator_begin_chars();
    assert(b[0] == '&' && b[1] == '|' && b[2] == ';' && b[3] == '<' && b[4] == '>' && b[5] == '('
        && b[6] == ')');
    if i < 0 || i >= src.len() {
        if ctx.operator && text.len() > 0 {
            lemma_operator_prefixes(text);
        }
    } else {
        let c = src[i];
        assert(!b.contains('\'') && !b.contains('"') && !b.contains('\\') && !b.contains('$')
            && !b.contains('`'));
        if text.len() > 0 {
            assert(text.push(c)[0] == text[0]);
            if i + 1 < src.len() {
                assert(text.push(c).push(src[i + 1])[0] == text[0]);
            }
        } else {
            assert(text.push(c)[0] == c);
            if i + 1 < src.len() {
                assert(text.push(c).push(src[i + 1])[0] == c);
            }
        }
        match step(src, i, ctx, text, first) {
            Step::Advance { next, ctx: c2, text: t2, first: f2 } => {
                if i < next {
                    lemma_run_operator(src, next, c2, t2, f2);
                }
            },
            Step::Finish { .. } => {
                if ctx.operator && text.len() > 0 {
                    lemma_operator_prefixes(text);
                }
            },
            _ => {},
        }
    }
}

/// A token that begins with an operator character is exactly one of the operators: maximal
/// munch stops only at a complete operator.
pub proof fn lemma_operator_tokens_complete(src: Seq<char>, pos: int)
    ensures
        next_token(src, pos).0 is Ok ==> {
            let t = next_token(src, pos).0->Ok_0;
            t.text.len() > 0 && begins_operator(t.text[0]) ==> is_operator(t.text)
        },
{
    lemma_run_operator(src, pos, fresh_context(), seq![], 0);
}

} // verus!
