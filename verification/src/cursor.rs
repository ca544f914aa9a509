//! A forward-only cursor over source text, and the tokenizer that drives it.
use vstd::prelude::*;
use vstd::std_specs::iter::IteratorSpec;
use std::str::Chars;
use crate::charclass::{alphanumeric, is_decimal_digit};
use crate::grammar::{
    alphanumerics, digits, is_maximal_run, lemma_maximal_run_is_run_len, lemma_token_at_len,
    spans, token_at, tokens, EOF,
};
use crate::laws::lemma_tokens_bounded;
use crate::token::{Span, Token, TokenType};

verus! {

/// Trusted: `Chars::as_str` returns the part of the text that the iterator
/// has not yet yielded, so its characters are those still to come, in order.
pub assume_specification<'a>[ Chars::<'a>::as_str ](chars: &Chars<'a>) -> (rest: &'a str)
    ensures
        rest@ == chars.remaining(),
;

/// Whether `predicate` accepts each of the first `n` characters of `s` and
/// rejects the one after them, if there is one.
pub open spec fn accepts_run<F: Fn(char) -> bool>(predicate: F, s: Seq<char>, n: nat) -> bool {
    &&& n <= s.len()
    &&& forall|i: int| 0 <= i < n ==> call_ensures(predicate, (#[trigger] s[i],), true)
    &&& n < s.len() ==> call_ensures(predicate, (s[n as int],), false)
}

/// A position in a source text. Characters are only ever consumed from the
/// front of what is left, so the unread part is always a suffix of the text.
pub struct Cursor<'a> {
    /// Number of characters in the whole text.
    len_initial: usize,
    /// Number of characters not yet consumed.
    len_remaining: usize,
    /// The unread suffix of the text.
    rest: &'a str,
    /// The whole text.
    source: Ghost<Seq<char>>,
}

impl<'a> Cursor<'a> {
    /// The invariant of every cursor: its counters agree with the text, and
    /// the unread text is the source without its first `consumed()`
    /// characters.
    #[verifier::type_invariant]
    pub closed spec fn wf(&self) -> bool {
        &&& self.source@.len() == self.len_initial
        &&& self.len_remaining <= self.len_initial
        &&& self.rest@ == self.source@.skip(self.len_initial - self.len_remaining)
    }

    /// The text the cursor was created over.
    pub closed spec fn source(&self) -> Seq<char> {
        self.source@
    }

    /// Number of characters consumed so far.
    pub closed spec fn consumed(&self) -> nat {
        (self.len_initial - self.len_remaining) as nat
    }

    /// The characters still to be read.
    pub open spec fn remaining(&self) -> Seq<char> {
        self.source().skip(self.consumed() as int)
    }

    /// A cursor in front of the first character of `content`.
    pub fn new(content: &'a str) -> (cursor: Self)
        ensures
            cursor.source() == content@,
            cursor.consumed() == 0,
    {
        let len: usize = content.unicode_len();
        assert(content@.skip(0) =~= content@);
        Cursor { len_initial: len, len_remaining: len, rest: content, source: Ghost(content@) }
    }

    /// Consumes the upcoming character and returns it; `None` once the text is
    /// exhausted.
    pub fn peek(&mut self) -> (c: Option<char>)
        ensures
            final(self).source() == old(self).source(),
            old(self).remaining().len() > 0 ==> c == Some(old(self).remaining()[0])
                && final(self).consumed() == old(self).consumed() + 1,
            old(self).remaining().len() == 0 ==> c.is_none() && final(self).consumed() == old(
                self,
            ).consumed(),
    {
        broadcast use vstd::string::group_string_axioms;
        proof {
            use_type_invariant(&*self);
        }
        let mut chars = self.rest.chars();
        let c = chars.next();
        if c.is_some() {
            assert(self.rest@.drop_first() =~= self.source@.skip(
                self.len_initial - self.len_remaining + 1,
            ));
            *self = Cursor {
                len_initial: self.len_initial,
                len_remaining: self.len_remaining - 1,
                rest: chars.as_str(),
                source: self.source,
            };
        }
        c
    }

    /// The upcoming character, which stays unconsumed; `EOF` once the text is
    /// exhausted.
    pub fn next(&self) -> (c: char)
        ensures
            c == (if self.remaining().len() > 0 { self.remaining()[0] } else { EOF }),
    {
        broadcast use vstd::string::group_string_axioms;
        proof {
            use_type_invariant(self);
        }
        let mut chars = self.rest.chars();
        match chars.next() {
            Some(c) => c,
            None => EOF,
        }
    }

    /// Number of characters consumed so far, which is never more than the
    /// text holds.
    pub fn identifier_length(&self) -> (n: usize)
        ensures
            n == self.consumed(),
            n <= self.source().len(),
    {
        proof {
            use_type_invariant(self);
        }
        self.len_initial - self.len_remaining
    }

    /// Consumes characters for as long as `predicate` accepts the upcoming
    /// one. It stops in front of the first character that `predicate`
    /// rejects, or at the end of the text.
    pub fn consume_until<F: Fn(char) -> bool>(&mut self, predicate: F)
        requires
            forall|c: char| call_requires(predicate, (c,)),
        ensures
            final(self).source() == old(self).source(),
            final(self).consumed() >= old(self).consumed(),
            accepts_run(
                predicate,
                old(self).remaining(),
                (final(self).consumed() - old(self).consumed()) as nat,
            ),
    {
        let _ = self.len_until(predicate);
    }

    /// Does what `consume_until` does and returns the number of characters
    /// that it consumed.
    pub fn len_until<F: Fn(char) -> bool>(&mut self, predicate: F) -> (length: usize)
        requires
            forall|c: char| call_requires(predicate, (c,)),
        ensures
            final(self).source() == old(self).source(),
            final(self).consumed() == old(self).consumed() + length,
            accepts_run(predicate, old(self).remaining(), length as nat),
    {
        let mut length: usize = 0;
        proof {
            use_type_invariant(&*self);
        }
        loop
            invariant
                self.wf(),
                self.source() == old(self).source(),
                self.consumed() == old(self).consumed() + length,
                length <= old(self).remaining().len(),
                forall|c: char| call_requires(predicate, (c,)),
                forall|i: int|
                    0 <= i < length ==> call_ensures(
                        predicate,
                        (#[trigger] old(self).remaining()[i],),
                        true,
                    ),
            ensures
                accepts_run(predicate, old(self).remaining(), length as nat),
            decreases self.len_remaining,
        {
            let upcoming = self.next();
            let accepted = predicate(upcoming);
            if !accepted || self.rest.is_empty() {
                break ;
            }
            assert(upcoming == old(self).remaining()[length as int]);
            self.peek();
            length += 1;
            proof {
                use_type_invariant(&*self);
            }
        }
        length
    }

    /// Consumes characters up to the next space, which stays unconsumed, or
    /// up to the end of the text.
    pub fn consume_until_whitespace(&mut self)
        ensures
            final(self).source() == old(self).source(),
            final(self).consumed() >= old(self).consumed(),
            is_maximal_run(
                old(self).remaining(),
                |c: char| c != ' ',
                (final(self).consumed() - old(self).consumed()) as nat,
            ),
    {
        self.consume_until(|c: char| -> (b: bool)
            ensures
                b == (c != ' '),
            { c != ' ' });
    }

    /// Classifies the upcoming characters as one token and consumes them.
    /// At the end of the text, and in front of a character that starts no
    /// token, the token is `Eof` and nothing is consumed.
    pub fn consume_next_token(&mut self) -> (token: Token)
        ensures
            final(self).source() == old(self).source(),
            token@ == token_at(old(self).remaining()),
            final(self).consumed() == old(self).consumed() + token.value_len,
            token.token_type is Eof ==> final(self).remaining() == old(self).remaining(),
    {
        proof {
            use_type_invariant(&*self);
        }
        let first_char = self.next();
        if first_char == EOF {
            return Token::new(TokenType::Eof, 0);
        }
        let ghost upcoming = self.remaining();
        let start = self.identifier_length();
        let token_type = if first_char == ';' {
            self.peek();
            TokenType::Semi
        } else if first_char == ' ' {
            self.peek();
            TokenType::Whitespace
        } else if is_decimal_digit(first_char) {
            self.consume_until(is_decimal_digit);
            proof {
                lemma_maximal_run_is_run_len(
                    upcoming,
                    digits(),
                    (self.consumed() - start) as nat,
                );
            }
            TokenType::IntLiteral
        } else if first_char.is_alphabetic() {
            self.consume_until(|c: char| -> (b: bool)
                ensures
                    b == alphanumeric(c),
                { c.is_alphanumeric() });
            proof {
                lemma_maximal_run_is_run_len(
                    upcoming,
                    alphanumerics(),
                    (self.consumed() - start) as nat,
                );
            }
            TokenType::Identifier
        } else {
            TokenType::Eof
        };
        proof {
            use_type_invariant(&*self);
        }
        Token::new(token_type, self.identifier_length() - start)
    }

    /// One step of a token stream: the next token, or `None` where the next
    /// token is `Eof`, which ends the stream and consumes nothing.
    pub fn pull_token(&mut self) -> (pulled: Option<Token>)
        ensures
            final(self).source() == old(self).source(),
            pulled is None <==> token_at(old(self).remaining()).kind is Eof,
            pulled is None ==> final(self).consumed() == old(self).consumed(),
            pulled is Some ==> {
                &&& pulled->0@ == token_at(old(self).remaining())
                &&& final(self).consumed() == old(self).consumed() + pulled->0.value_len
                &&& tokens(old(self).remaining()) == seq![pulled->0@] + tokens(
                    final(self).remaining(),
                )
            },
    {
        let ghost before = self.remaining();
        let token = self.consume_next_token();
        proof {
            use_type_invariant(&*self);
            lemma_token_at_len(before);
        }
        if token.token_type == TokenType::Eof {
            None
        } else {
            assert(self.remaining() =~= before.skip(token.value_len as int));
            Some(token)
        }
    }
}

/// The tokens of `code` in order, up to the first `Eof`, which is left out.
/// There are no more of them than `code` has characters.
pub fn tokenize(code: &str) -> (list: Vec<Token>)
    ensures
        spans(list@) == tokens(code@),
        list@.len() <= code@.len(),
{
    let mut cursor = Cursor::new(code);
    let mut list: Vec<Token> = Vec::new();
    assert(code@.skip(0) =~= code@);
    assert(spans(list@) + tokens(code@) =~= tokens(code@));
    proof {
        use_type_invariant(&cursor);
    }
    loop
        invariant_except_break
            cursor.wf(),
            cursor.source() == code@,
            spans(list@) + tokens(cursor.remaining()) == tokens(code@),
        ensures
            spans(list@) == tokens(code@),
        decreases code@.len() - cursor.consumed(),
    {
        match cursor.pull_token() {
            None => {
                assert(spans(list@) + Seq::<Span>::empty() =~= spans(list@));
                break ;
            },
            Some(token) => {
                proof {
                    use_type_invariant(&cursor);
                    assert(spans(list@.push(token)) =~= spans(list@) + seq![token@]);
                    assert(spans(list@) + (seq![token@] + tokens(cursor.remaining())) =~= spans(
                        list@.push(token),
                    ) + tokens(cursor.remaining()));
                }
                list.push(token);
            },
        }
    }
    proof {
        lemma_tokens_bounded(code@);
    }
    list
}

} // verus!
