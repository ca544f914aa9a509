use compiler::{tokenize, Cursor, Token, TokenType, EOF};
use expect_test::{Expect, Position};

fn token(token_type: TokenType, value_len: usize) -> Token {
    Token::new(token_type, value_len)
}

/// Drives a cursor until it yields `Eof`, and returns every token including
/// that last one.
fn scan(code: &str) -> Vec<Token> {
    let mut cursor = Cursor::new(code);
    let mut list = Vec::new();
    loop {
        let next = cursor.consume_next_token();
        list.push(next);
        if next.token_type == TokenType::Eof {
            return list;
        }
    }
}

fn test_tokenizing(code: &str, expect: Expect) {
    let actual: String = tokenize(code)
        .iter()
        .map(|token| format!("{:?}\n", token))
        .collect();
    expect.assert_eq(&actual);
}

#[test]
fn first_tokenizing_test() {
    let code = "return 1;";
    let expected = Expect {
        position: Position { file: "tests/tokenizer.rs", line: 34, column: 20 },
        data: r#"
            Token { token_type: Identifier, value_len: 6 }
            Token { token_type: Whitespace, value_len: 1 }
            Token { token_type: IntLiteral, value_len: 1 }
            Token { token_type: Semi, value_len: 1 }
            "#,
        indent: true,
    };
    test_tokenizing(code, expected);
}

#[test]
fn return_statement_ends_with_eof() {
    assert_eq!(
        scan("return 1;"),
        vec![
            token(TokenType::Identifier, 6),
            token(TokenType::Whitespace, 1),
            token(TokenType::IntLiteral, 1),
            token(TokenType::Semi, 1),
            token(TokenType::Eof, 0),
        ]
    );
}

#[test]
fn empty_text_is_eof_only() {
    assert_eq!(scan(""), vec![token(TokenType::Eof, 0)]);
    assert_eq!(tokenize(""), vec![]);
}

#[test]
fn letters_then_digits_are_one_identifier() {
    assert_eq!(scan("abc123"), vec![token(TokenType::Identifier, 6), token(TokenType::Eof, 0)]);
}

#[test]
fn semicolons_are_not_merged() {
    assert_eq!(
        scan(";;"),
        vec![token(TokenType::Semi, 1), token(TokenType::Semi, 1), token(TokenType::Eof, 0)]
    );
}

#[test]
fn digits_around_a_space() {
    assert_eq!(
        scan("1 2"),
        vec![
            token(TokenType::IntLiteral, 1),
            token(TokenType::Whitespace, 1),
            token(TokenType::IntLiteral, 1),
            token(TokenType::Eof, 0),
        ]
    );
}

#[test]
fn spaces_are_not_merged() {
    assert_eq!(
        tokenize("a   b"),
        vec![
            token(TokenType::Identifier, 1),
            token(TokenType::Whitespace, 1),
            token(TokenType::Whitespace, 1),
            token(TokenType::Whitespace, 1),
            token(TokenType::Identifier, 1),
        ]
    );
}

#[test]
fn digit_run_is_one_literal() {
    assert_eq!(tokenize("0123456789"), vec![token(TokenType::IntLiteral, 10)]);
    assert_eq!(
        tokenize("12;345"),
        vec![
            token(TokenType::IntLiteral, 2),
            token(TokenType::Semi, 1),
            token(TokenType::IntLiteral, 3),
        ]
    );
}

#[test]
fn literal_stops_at_a_letter() {
    assert_eq!(
        tokenize("123abc"),
        vec![token(TokenType::IntLiteral, 3), token(TokenType::Identifier, 3)]
    );
}

#[test]
fn eof_is_repeated_at_the_end() {
    let mut cursor = Cursor::new("x");
    assert_eq!(cursor.consume_next_token(), token(TokenType::Identifier, 1));
    for _ in 0..4 {
        assert_eq!(cursor.consume_next_token(), token(TokenType::Eof, 0));
        assert_eq!(cursor.identifier_length(), 1);
    }
}

#[test]
fn unknown_character_is_eof_and_stays() {
    let mut cursor = Cursor::new("a+b");
    assert_eq!(cursor.consume_next_token(), token(TokenType::Identifier, 1));
    for _ in 0..3 {
        assert_eq!(cursor.consume_next_token(), token(TokenType::Eof, 0));
        assert_eq!(cursor.next(), '+');
        assert_eq!(cursor.identifier_length(), 1);
    }
    assert_eq!(tokenize("a+b"), vec![token(TokenType::Identifier, 1)]);
    assert_eq!(tokenize("+"), vec![]);
}

#[test]
fn end_of_text_character_in_the_text_is_eof() {
    assert_eq!(scan("a\0b"), vec![token(TokenType::Identifier, 1), token(TokenType::Eof, 0)]);
}

#[test]
fn lengths_count_characters_not_bytes() {
    assert_eq!(
        tokenize("h\u{e9}llo w\u{f6}rld"),
        vec![
            token(TokenType::Identifier, 5),
            token(TokenType::Whitespace, 1),
            token(TokenType::Identifier, 5),
        ]
    );
}

#[test]
fn identifier_takes_numbers_of_other_scripts() {
    // U+0663 is a number but neither a letter nor one of `0` to `9`.
    assert_eq!(tokenize("x\u{663}1;"), vec![token(TokenType::Identifier, 3), token(TokenType::Semi, 1)]);
    assert_eq!(scan("\u{663}"), vec![token(TokenType::Eof, 0)]);
    assert_eq!(
        tokenize("7\u{663}"),
        vec![token(TokenType::IntLiteral, 1)]
    );
}

#[test]
fn peek_consumes_and_next_does_not() {
    let mut cursor = Cursor::new("ab");
    assert_eq!(cursor.next(), 'a');
    assert_eq!(cursor.next(), 'a');
    assert_eq!(cursor.identifier_length(), 0);
    assert_eq!(cursor.peek(), Some('a'));
    assert_eq!(cursor.identifier_length(), 1);
    assert_eq!(cursor.next(), 'b');
    assert_eq!(cursor.peek(), Some('b'));
    assert_eq!(cursor.identifier_length(), 2);
    assert_eq!(cursor.next(), EOF);
    assert_eq!(cursor.peek(), None);
    assert_eq!(cursor.peek(), None);
    assert_eq!(cursor.identifier_length(), 2);
    assert_eq!(EOF, '\0');
}

#[test]
fn consume_until_stops_before_the_rejected_character() {
    let mut cursor = Cursor::new("aaab");
    cursor.consume_until(|c| c == 'a');
    assert_eq!(cursor.identifier_length(), 3);
    assert_eq!(cursor.next(), 'b');
    cursor.consume_until(|c| c == 'a');
    assert_eq!(cursor.identifier_length(), 3);
}

#[test]
fn consume_until_stops_at_the_end() {
    let mut cursor = Cursor::new("aaa");
    cursor.consume_until(|_| true);
    assert_eq!(cursor.identifier_length(), 3);
    assert_eq!(cursor.next(), EOF);
    cursor.consume_until(|_| true);
    assert_eq!(cursor.identifier_length(), 3);
}

#[test]
fn len_until_counts_what_it_consumes() {
    let mut cursor = Cursor::new("12345abc");
    assert_eq!(cursor.len_until(|c| c.is_ascii_digit()), 5);
    assert_eq!(cursor.identifier_length(), 5);
    assert_eq!(cursor.len_until(|c| c.is_ascii_digit()), 0);
    assert_eq!(cursor.len_until(|c| c != EOF), 3);
    assert_eq!(cursor.len_until(|c| c == EOF), 0);
    assert_eq!(cursor.identifier_length(), 8);
}

#[test]
fn consume_until_whitespace_stops_before_the_space() {
    let mut cursor = Cursor::new("let x");
    cursor.consume_until_whitespace();
    assert_eq!(cursor.identifier_length(), 3);
    assert_eq!(cursor.next(), ' ');
    cursor.consume_until_whitespace();
    assert_eq!(cursor.identifier_length(), 3);
    cursor.peek();
    cursor.consume_until_whitespace();
    assert_eq!(cursor.identifier_length(), 5);
    assert_eq!(cursor.next(), EOF);
}

#[test]
fn token_new_keeps_its_arguments() {
    let made = Token::new(TokenType::IntLiteral, 7);
    assert_eq!(made.token_type, TokenType::IntLiteral);
    assert_eq!(made.value_len, 7);
    assert_ne!(made, Token::new(TokenType::IntLiteral, 8));
    assert_ne!(made, Token::new(TokenType::Identifier, 7));
}

#[test]
fn decimal_digits_are_zero_to_nine() {
    for c in "0123456789".chars() {
        assert!(compiler::charclass::is_decimal_digit(c));
    }
    for c in "/:a \u{663}\0".chars() {
        assert!(!compiler::charclass::is_decimal_digit(c));
    }
}

#[test]
fn tokenizing_twice_gives_the_same_tokens() {
    let code = "let x1 = 42; y;;  z9";
    assert_eq!(tokenize(code), tokenize(code));
    assert_eq!(scan(code), scan(&String::from(code)));
}

#[test]
fn token_lengths_add_up_to_the_text() {
    for code in ["return 1;", "a1 b2;;  33", "   ", "x", "007;abc def;9", "\u{e9}t\u{e9} 1"] {
        let total: usize = tokenize(code).iter().map(|token| token.value_len).sum();
        assert_eq!(total, code.chars().count());
    }
}

#[test]
fn scan_ends_within_length_plus_one_steps() {
    for code in ["", ";", ";;;;", "a b c d", "abc", "1;2;3", "a+b", "++"] {
        let steps = scan(code).len();
        assert!(steps <= code.chars().count() + 1);
        assert!(tokenize(code).iter().all(|token| token.value_len >= 1));
    }
}

#[test]
fn runs_are_never_cut() {
    let list = tokenize("abc123def 456 g7;89");
    assert_eq!(
        list,
        vec![
            token(TokenType::Identifier, 9),
            token(TokenType::Whitespace, 1),
            token(TokenType::IntLiteral, 3),
            token(TokenType::Whitespace, 1),
            token(TokenType::Identifier, 2),
            token(TokenType::Semi, 1),
            token(TokenType::IntLiteral, 2),
        ]
    );
    for pair in list.windows(2) {
        assert!(!(pair[0].token_type == TokenType::IntLiteral
            && pair[1].token_type == TokenType::IntLiteral));
        assert!(!(pair[0].token_type == TokenType::Identifier
            && pair[1].token_type == TokenType::Identifier));
    }
}

#[test]
fn pull_token_ends_the_stream_at_eof() {
    let mut cursor = Cursor::new("ab 12?x");
    assert_eq!(cursor.pull_token(), Some(token(TokenType::Identifier, 2)));
    assert_eq!(cursor.pull_token(), Some(token(TokenType::Whitespace, 1)));
    assert_eq!(cursor.pull_token(), Some(token(TokenType::IntLiteral, 2)));
    assert_eq!(cursor.pull_token(), None);
    assert_eq!(cursor.pull_token(), None);
    assert_eq!(cursor.identifier_length(), 5);
    let mut empty = Cursor::new("");
    assert_eq!(empty.pull_token(), None);
}

#[test]
fn tokenize_collects_what_pull_token_yields() {
    let code = "foo 42;bar";
    let mut cursor = Cursor::new(code);
    let mut pulled = Vec::new();
    while let Some(next) = cursor.pull_token() {
        pulled.push(next);
    }
    assert_eq!(pulled, tokenize(code));
    assert!(pulled.len() <= code.chars().count());
}
