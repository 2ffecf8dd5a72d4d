//! The ways in which producing a token can end without a token.
use vstd::prelude::*;

verus! {

/// Why no token was produced.
#[derive(Debug, Clone, Copy, PartialEq, Eq, Structural)]
pub enum LexerError {
    /// No input is left but blanks and comments: the normal end of the token stream.
    EndOfText,
    /// An unquoted backslash is the last character of the input.
    UnmatchedEscapeSequence,
    /// The input ends inside a quoted part of a word.
    UnterminatedQuote,
    /// The input ends inside a command, parameter or arithmetic substitution.
    UnterminatedSubstitution,
}

} // verus!
