//! What holds of tokenization as a whole.
use vstd::prelude::*;
use crate::charclass::{alphabetic, decimal_digit};
use crate::cursor::Cursor;
use crate::grammar::{
    alphanumerics, digits, is_maximal_run, kind_at, lemma_run_len_is_maximal, lemma_token_at_len,
    spans, token_at, tokens, total_len, EOF,
};
use crate::token::{Span, Token, TokenType};

verus! {

/// Whether every character of `s` can start a token: each is a decimal
/// digit, a letter other than the end-of-text character, a space or a
/// semicolon.
pub open spec fn is_plain(s: Seq<char>) -> bool {
    forall|i: int|
        0 <= i < s.len() ==> {
            let c = #[trigger] s[i];
            decimal_digit(c) || (alphabetic(c) && c != EOF) || c == ' ' || c == ';'
        }
}

/// Tokenizing is a function of the text: two token lists that were made from
/// equal texts are the same list, kinds and lengths alike.
pub proof fn lemma_tokenize_deterministic(a: &str, b: &str, first: Seq<Token>, second: Seq<Token>)
    requires
        a@ == b@,
        spans(first) == tokens(a@),
        spans(second) == tokens(b@),
    ensures
        first == second,
{
    assert(first.len() == spans(first).len());
    assert(second.len() == spans(second).len());
    assert forall|i: int| 0 <= i < first.len() implies first[i] == second[i] by {
        assert(first[i]@ == spans(first)[i]);
        assert(second[i]@ == spans(second)[i]);
    }
    assert(first =~= second);
}

/// The tokens of a text that holds only digits, letters, spaces and
/// semicolons cover it: their lengths add up to the length of the text.
pub proof fn lemma_tokens_cover_plain_text(s: Seq<char>)
    requires
        is_plain(s),
    ensures
        total_len(tokens(s)) == s.len(),
    decreases s.len(),
{
    if s.len() > 0 {
        let first = token_at(s);
        lemma_token_at_len(s);
        assert(decimal_digit(s[0]) || (alphabetic(s[0]) && s[0] != EOF) || s[0] == ' ' || s[0]
            == ';');
        assert(!(first.kind is Eof));
        let tail = s.skip(first.len as int);
        assert forall|i: int| 0 <= i < tail.len() implies {
            let c = #[trigger] tail[i];
            decimal_digit(c) || (alphabetic(c) && c != EOF) || c == ' ' || c == ';'
        } by {
            assert(tail[i] == s[i + first.len]);
        }
        lemma_tokens_cover_plain_text(tail);
        assert((seq![first] + tokens(tail)).drop_first() =~= tokens(tail));
    }
}

/// Every token spans at least one character, and the tokens of a text never
/// span more than the text holds. So a text of `n` characters has at most
/// `n` tokens, and the scan reaches `Eof` within `n + 1` steps.
pub proof fn lemma_tokens_bounded(s: Seq<char>)
    ensures
        tokens(s).len() <= total_len(tokens(s)) <= s.len(),
        forall|i: int| 0 <= i < tokens(s).len() ==> (#[trigger] tokens(s)[i]).len >= 1,
    decreases s.len(),
{
    let first = token_at(s);
    lemma_token_at_len(s);
    if !(first.kind is Eof) {
        let tail = s.skip(first.len as int);
        lemma_tokens_bounded(tail);
        assert((seq![first] + tokens(tail)).drop_first() =~= tokens(tail));
        assert forall|i: int| 0 <= i < tokens(s).len() implies (#[trigger] tokens(s)[i]).len
            >= 1 by {
            if i > 0 {
                assert(tokens(s)[i] == tokens(tail)[i - 1]);
            }
        }
    }
}

/// `Eof` is terminal: a step that gave `Eof` consumed nothing, so the cursor
/// stands where it stood and the next step gives `Eof` of length 0 again.
pub proof fn lemma_eof_is_terminal(before: Cursor, after: Cursor, token: Token)
    requires
        before.wf(),
        after.wf(),
        after.source() == before.source(),
        token@ == token_at(before.remaining()),
        after.consumed() == before.consumed() + token.value_len,
        token.token_type is Eof,
    ensures
        token.value_len == 0,
        after.remaining() == before.remaining(),
        token_at(after.remaining()) == (Span { kind: TokenType::Eof, len: 0 }),
{
    lemma_token_at_len(before.remaining());
}

/// Runs are matched whole. An integer literal starts with a decimal digit
/// and spans the maximal run of decimal digits; an identifier starts with a
/// letter and spans the maximal run of letters and numbers. The token that
/// follows is then not of the same kind: a run is never cut in two.
pub proof fn lemma_longest_match(s: Seq<char>)
    ensures
        token_at(s).kind is IntLiteral ==> {
            &&& decimal_digit(s[0])
            &&& token_at(s).len >= 1
            &&& is_maximal_run(s, digits(), token_at(s).len)
            &&& !(kind_at(s.skip(token_at(s).len as int)) is IntLiteral)
        },
        token_at(s).kind is Identifier ==> {
            &&& alphabetic(s[0])
            &&& token_at(s).len >= 1
            &&& is_maximal_run(s, alphanumerics(), token_at(s).len)
            &&& !(kind_at(s.skip(token_at(s).len as int)) is Identifier)
        },
{
    lemma_run_len_is_maximal(s, digits());
    lemma_run_len_is_maximal(s, alphanumerics());
    lemma_token_at_len(s);
    let tail = s.skip(token_at(s).len as int);
    if tail.len() > 0 {
        assert(tail[0] == s[token_at(s).len as int]);
    }
}

} // verus!
