//! Tokenizer for a POSIX-style shell command language.
//!
//! The lexer turns shell text into words and operators, with quoting, escapes, line
//! continuations, comments and substitutions handled as the shell's token-recognition rules
//! say. `rules` states those rules one character at a time, `lexer` implements them, and
//! `spans` and `laws` prove what follows of them.

pub mod context;
pub mod cursor;
pub mod error;
pub mod laws;
pub mod lexer;
pub mod quoted;
pub mod rules;
pub mod spans;
pub mod tables;
pub mod text;
pub mod utf8;
