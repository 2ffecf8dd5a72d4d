//! The state kept while one token is read.
use vstd::prelude::*;
use crate::rules::{fresh_context, ContextModel};

verus! {

/// Quoting, substitution, operator and comment state of the token being read.
pub struct LexerContext {
    /// Open quote characters, innermost last.
    pub quotes: Vec<char>,
    /// Characters that close the open substitutions, innermost last.
    pub closers: Vec<char>,
    /// The token has begun as an operator.
    pub operator: bool,
    /// The next character is taken literally.
    pub escaped: bool,
    /// The characters up to the next newline are a comment.
    pub comment: bool,
}

impl View for LexerContext {
    type V = ContextModel;

    open spec fn view(&self) -> ContextModel {
        ContextModel {
            quotes: self.quotes@,
            closers: self.closers@,
            operator: self.operator,
            escaped: self.escaped,
            comment: self.comment,
        }
    }
}

impl LexerContext {
    /// The context in which a token begins: nothing open, no operator, no comment.
    pub fn new() -> (r: LexerContext)
        ensures
            r@ == fresh_context(),
    {
        LexerContext {
            quotes: Vec::new(),
            closers: Vec::new(),
            operator: false,
            escaped: false,
            comment: false,
        }
    }

    /// Returns to the context in which a token begins.
    pub fn reset(&mut self)
        ensures
            final(self)@ == fresh_context(),
    {
        self.quotes.clear();
        self.closers.clear();
        self.operator = false;
        self.escaped = false;
        self.comment = false;
    }

    /// Whether some quote is open.
    pub fn quoted(&self) -> (r: bool)
        ensures
            r == (self@.quotes.len() > 0),
    {
        self.quotes.len() > 0
    }

    /// The innermost open quote character.
    pub fn quote(&self) -> (r: char)
        requires
            self@.quotes.len() > 0,
        ensures
            r == self@.quotes.last(),
    {
        self.quotes[self.quotes.len() - 1]
    }

    /// The character that closes the innermost open substitution.
    pub fn closer(&self) -> (r: char)
        requires
            self@.closers.len() > 0,
        ensures
            r == self@.closers.last(),
    {
        self.closers[self.closers.len() - 1]
    }
}

} // verus!
