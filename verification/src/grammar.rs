//! The token rules as mathematics over sequences of characters.
use vstd::prelude::*;
use crate::charclass::{alphabetic, alphanumeric, decimal_digit};
use crate::token::{Span, Token, TokenType};

verus! {

/// The end-of-text character: what a cursor shows where nothing is left.
pub const EOF: char = '\0';

/// The class of decimal digits, as a predicate.
pub open spec fn digits() -> spec_fn(char) -> bool {
    |c: char| decimal_digit(c)
}

/// The class of letters and numbers, as a predicate.
pub open spec fn alphanumerics() -> spec_fn(char) -> bool {
    |c: char| alphanumeric(c)
}

/// Whether the first `n` characters of `s` are a maximal run of `class`:
/// all of them are in the class, and the character after them, if there is
/// one, is not.
pub open spec fn is_maximal_run(s: Seq<char>, class: spec_fn(char) -> bool, n: nat) -> bool {
    &&& n <= s.len()
    &&& forall|i: int| 0 <= i < n ==> class(#[trigger] s[i])
    &&& n < s.len() ==> !class(s[n as int])
}

/// Length of the longest prefix of `s` that lies within `class`.
pub open spec fn run_len(s: Seq<char>, class: spec_fn(char) -> bool) -> nat
    decreases s.len(),
{
    if s.len() > 0 && class(s[0]) {
        1 + run_len(s.drop_first(), class)
    } else {
        0
    }
}

/// `run_len` is the length of a maximal run.
pub proof fn lemma_run_len_is_maximal(s: Seq<char>, class: spec_fn(char) -> bool)
    ensures
        is_maximal_run(s, class, run_len(s, class)),
    decreases s.len(),
{
    if s.len() > 0 && class(s[0]) {
        let tail = s.drop_first();
        lemma_run_len_is_maximal(tail, class);
        let n = run_len(s, class);
        assert forall|i: int| 0 <= i < n implies class(#[trigger] s[i]) by {
            if i > 0 {
                assert(s[i] == tail[i - 1]);
            }
        }
        if n < s.len() {
            assert(s[n as int] == tail[n - 1]);
        }
    }
}

/// A maximal run has only one length, the one that `run_len` gives.
pub proof fn lemma_maximal_run_is_run_len(s: Seq<char>, class: spec_fn(char) -> bool, n: nat)
    requires
        is_maximal_run(s, class, n),
    ensures
        run_len(s, class) == n,
    decreases s.len(),
{
    if s.len() > 0 && class(s[0]) {
        let tail = s.drop_first();
        assert(n >= 1);
        assert forall|i: int| 0 <= i < n - 1 implies class(#[trigger] tail[i]) by {
            assert(tail[i] == s[i + 1]);
        }
        if n < s.len() {
            assert(tail[n - 1] == s[n as int]);
        }
        lemma_maximal_run_is_run_len(tail, class, (n - 1) as nat);
    } else if s.len() > 0 {
        if n > 0 {
            assert(class(s[0]));
        }
    }
}

/// The kind of the token that starts the text `s`, decided by its first
/// character. The end of the text, the end-of-text character and a character
/// that starts no token all give `Eof`.
pub open spec fn kind_at(s: Seq<char>) -> TokenType {
    if s.len() == 0 || s[0] == EOF {
        TokenType::Eof
    } else if s[0] == ';' {
        TokenType::Semi
    } else if s[0] == ' ' {
        TokenType::Whitespace
    } else if decimal_digit(s[0]) {
        TokenType::IntLiteral
    } else if alphabetic(s[0]) {
        TokenType::Identifier
    } else {
        TokenType::Eof
    }
}

/// The token that starts the text `s`: a semicolon and a space span one
/// character, an integer literal the longest run of decimal digits, an
/// identifier the longest run of letters and numbers, and `Eof` nothing.
pub open spec fn token_at(s: Seq<char>) -> Span {
    let kind = kind_at(s);
    let len = match kind {
        TokenType::Semi => 1,
        TokenType::Whitespace => 1,
        TokenType::IntLiteral => run_len(s, digits()),
        TokenType::Identifier => run_len(s, alphanumerics()),
        TokenType::Eof => 0,
    };
    Span { kind, len }
}

/// Every token but `Eof` spans at least one character and no more than are
/// left; `Eof` spans none.
pub proof fn lemma_token_at_len(s: Seq<char>)
    ensures
        token_at(s).len <= s.len(),
        token_at(s).kind is Eof <==> token_at(s).len == 0,
{
    lemma_run_len_is_maximal(s, digits());
    lemma_run_len_is_maximal(s, alphanumerics());
}

/// The tokens of the text `s` in order, up to the first `Eof`, which is left
/// out.
pub open spec fn tokens(s: Seq<char>) -> Seq<Span>
    decreases s.len(),
    via tokens_decreases
{
    let first = token_at(s);
    if first.kind is Eof {
        Seq::empty()
    } else {
        seq![first] + tokens(s.skip(first.len as int))
    }
}

#[via_fn]
proof fn tokens_decreases(s: Seq<char>) {
    lemma_token_at_len(s);
}

/// The spans of the tokens in `list`, in order.
pub open spec fn spans(list: Seq<Token>) -> Seq<Span> {
    Seq::new(list.len(), |i: int| list[i]@)
}

/// Sum of the lengths of the spans in `spans`.
pub open spec fn total_len(spans: Seq<Span>) -> nat
    decreases spans.len(),
{
    if spans.len() == 0 {
        0
    } else {
        spans[0].len + total_len(spans.drop_first())
    }
}

} // verus!
