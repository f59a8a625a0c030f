//! A tokenizer for a small language: it turns source text into a queue of
//! numbers, identifiers and punctuation tokens, each a borrowed fragment of
//! the text, and says in its contracts exactly which tokens those are.
pub mod chars;
pub mod laws;
pub mod lexer;
pub mod scan;
pub mod token;

pub use crate::lexer::{LexError, Lexer};
pub use crate::token::{Token, TokenTag, TokenView};
