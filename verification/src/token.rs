//! Tokens: a kind and the number of characters the token spans.
use vstd::prelude::*;

verus! {

/// The closed set of token kinds.
#[derive(Clone, Copy, Debug, PartialEq, Eq, Structural)]
pub enum TokenType {
    /// `;`
    Semi,
    /// A single space.
    Whitespace,
    /// A letter followed by letters and numbers, such as `return`.
    Identifier,
    /// A run of decimal digits, such as `123`.
    IntLiteral,
    /// The end of the text, or a character that starts no token.
    Eof,
}

/// A classified span of source text. It holds no reference into the text.
#[derive(Clone, Copy, Debug, PartialEq, Eq, Structural)]
pub struct Token {
    pub token_type: TokenType,
    /// Number of characters that the token spans.
    pub value_len: usize,
}

/// What a token is in contracts: its kind and the number of characters it
/// spans.
pub ghost struct Span {
    pub kind: TokenType,
    pub len: nat,
}

impl View for Token {
    type V = Span;

    open spec fn view(&self) -> Span {
        Span { kind: self.token_type, len: self.value_len as nat }
    }
}

impl Token {
    pub fn new(token_type: TokenType, value_len: usize) -> (token: Self)
        ensures
            token == (Token { token_type, value_len }),
    {
        Token { token_type, value_len }
    }
}

} // verus!
