//! Lexical analysis for a small compiler: a forward-only cursor over source
//! text that classifies the upcoming characters into tokens.
pub mod charclass;
pub mod token;
pub mod grammar;
pub mod cursor;
pub mod laws;

pub use cursor::{tokenize, Cursor};
pub use grammar::EOF;
pub use token::{Span, Token, TokenType};
