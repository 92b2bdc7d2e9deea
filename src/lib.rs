//! A lexical scanner for a small C-like scripting language.
//!
//! The scanner turns source text into a stream of [`Token`]s, one per call of
//! [`Lexer::next_token`]. Its behaviour is described by the sequence-level
//! model in [`grammar`], and the module [`laws`] proves what that model
//! guarantees for every input.

pub mod chars;
pub mod token;
pub mod grammar;
pub mod lexer;
pub mod laws;

pub use chars::is_letter;
pub use lexer::{tokenize, Lexer};
pub use token::{lookup_ident, Token};
