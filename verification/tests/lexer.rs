use frontend::lex::lexer::{to_chars, utf8_width, Lexer};
use frontend::lex::{
    is_digit, is_identifier_start, is_whitespace, LiteralKind, Token, TokenKind,
};

fn check(s: &str, expected: TokenKind) {
    let mut lex = Lexer::new(s);
    assert_eq!(lex.next_token().kind, expected);
}

fn scan_all(s: &str) -> Vec<Token> {
    let mut lex = Lexer::new(s);
    let mut tokens = Vec::new();
    loop {
        let token = lex.next_token();
        tokens.push(token);
        if token.kind == TokenKind::EOF {
            return tokens;
        }
    }
}

#[test]
fn single_character_tokens() {
    check(";", TokenKind::Semi);
    check(":", TokenKind::Colon);
    check(",", TokenKind::Comma);
    check(".", TokenKind::Dot);
    check("(", TokenKind::OpenParen);
    check(")", TokenKind::CloseParen);
    check("{", TokenKind::OpenBrace);
    check("}", TokenKind::CloseBrace);
    check("\\", TokenKind::BSlash);
    check("=", TokenKind::Eq);
    check("<", TokenKind::Lt);
    check(">", TokenKind::Gt);
    check("|", TokenKind::Pipe);
    check("&", TokenKind::And);
    check("^", TokenKind::Caret);
    check("+", TokenKind::Plus);
    check("-", TokenKind::Minus);
    check("*", TokenKind::Star);
    check("/", TokenKind::FSlash);
    check("%", TokenKind::Percent);
    check("!", TokenKind::Bang);
    check("~", TokenKind::Tilde);
    check("\\", TokenKind::BSlash);
    check("`", TokenKind::Unknown);
    check("", TokenKind::EOF);
}

#[test]
fn tests_single_character_tokens() {
    check(">", TokenKind::Gt);
    check("<", TokenKind::Lt);
    check("=", TokenKind::Eq);
    check("!", TokenKind::Bang);
    check("/", TokenKind::FSlash);
    check("*", TokenKind::Star);
    check("-", TokenKind::Minus);
    check("+", TokenKind::Plus);
    check("%", TokenKind::Percent);
    check("^", TokenKind::Caret);
    check("&", TokenKind::And);
    check("|", TokenKind::Pipe);
    check("}", TokenKind::CloseBrace);
    check("{", TokenKind::OpenBrace);
    check(")", TokenKind::CloseParen);
    check("(", TokenKind::OpenParen);
    check(".", TokenKind::Dot);
    check(",", TokenKind::Comma);
    check(":", TokenKind::Colon);
    check(";", TokenKind::Semi);
}

#[test]
fn character_literal_tokens() {
    check(
        "'a'",
        TokenKind::Literal {
            kind: LiteralKind::Char { terminated: true },
        },
    );
    // Unterminated character literals.
    check(
        "''",
        TokenKind::Literal {
            kind: LiteralKind::Char { terminated: false },
        },
    );
    check(
        "'a",
        TokenKind::Literal {
            kind: LiteralKind::Char { terminated: false },
        },
    );
    check(
        "'",
        TokenKind::Literal {
            kind: LiteralKind::Char { terminated: false },
        },
    );
}

#[test]
fn string_literal_tokens() {
    check(
        "\"foobar\"",
        TokenKind::Literal {
            kind: LiteralKind::Str { terminated: true },
        },
    );
    check(
        "\"\"",
        TokenKind::Literal {
            kind: LiteralKind::Str { terminated: true },
        },
    );
    // Unterminated strings
    check(
        "\"foobar",
        TokenKind::Literal {
            kind: LiteralKind::Str { terminated: false },
        },
    );
    check(
        "\"",
        TokenKind::Literal {
            kind: LiteralKind::Str { terminated: false },
        },
    );
}

#[test]
fn number_literal_tokens() {
    check(
        "1234",
        TokenKind::Literal {
            kind: LiteralKind::Int,
        },
    );

    check(
        "1234.",
        TokenKind::Literal {
            kind: LiteralKind::Float,
        },
    );
    check(
        ".1234",
        TokenKind::Literal {
            kind: LiteralKind::Float,
        },
    );
    check(
        "12.34",
        TokenKind::Literal {
            kind: LiteralKind::Float,
        },
    );
}

#[test]
fn brackets_are_single_tokens() {
    check("[", TokenKind::OpenBracket);
    check("]", TokenKind::CloseBracket);
}

#[test]
fn every_token_has_its_length_in_bytes() {
    let tokens = scan_all("let  x1 = 12.5;");
    let expected = vec![
        Token::new(TokenKind::Identifier, 3),
        Token::new(TokenKind::Whitespace, 2),
        Token::new(TokenKind::Identifier, 2),
        Token::new(TokenKind::Whitespace, 1),
        Token::new(TokenKind::Eq, 1),
        Token::new(TokenKind::Whitespace, 1),
        Token::new(TokenKind::Literal { kind: LiteralKind::Float }, 4),
        Token::new(TokenKind::Semi, 1),
        Token::new(TokenKind::EOF, 0),
    ];
    assert_eq!(tokens, expected);
}

#[test]
fn lengths_count_bytes_not_characters() {
    // The identifier goes on over a letter of two bytes; the arrow of three
    // bytes starts no token.
    let tokens = scan_all("na\u{ef}ve\u{2192}");
    assert_eq!(
        tokens,
        vec![
            Token::new(TokenKind::Identifier, 6),
            Token::new(TokenKind::Unknown, 3),
            Token::new(TokenKind::EOF, 0),
        ]
    );
}

#[test]
fn identifiers_start_with_letter_or_underscore() {
    assert_eq!(
        scan_all("_a1 b_2"),
        vec![
            Token::new(TokenKind::Identifier, 3),
            Token::new(TokenKind::Whitespace, 1),
            Token::new(TokenKind::Identifier, 3),
            Token::new(TokenKind::EOF, 0),
        ]
    );
    // A digit starts a number, which stops where the letters begin.
    assert_eq!(
        scan_all("1a"),
        vec![
            Token::new(TokenKind::Literal { kind: LiteralKind::Int }, 1),
            Token::new(TokenKind::Identifier, 1),
            Token::new(TokenKind::EOF, 0),
        ]
    );
}

#[test]
fn a_dot_before_an_identifier_is_a_field_access() {
    assert_eq!(
        scan_all("12.len"),
        vec![
            Token::new(TokenKind::Literal { kind: LiteralKind::Int }, 2),
            Token::new(TokenKind::Dot, 1),
            Token::new(TokenKind::Identifier, 3),
            Token::new(TokenKind::EOF, 0),
        ]
    );
    assert_eq!(
        scan_all("12._x"),
        vec![
            Token::new(TokenKind::Literal { kind: LiteralKind::Int }, 2),
            Token::new(TokenKind::Dot, 1),
            Token::new(TokenKind::Identifier, 2),
            Token::new(TokenKind::EOF, 0),
        ]
    );
    assert_eq!(
        scan_all("1_000.5_0"),
        vec![
            Token::new(TokenKind::Literal { kind: LiteralKind::Float }, 9),
            Token::new(TokenKind::EOF, 0),
        ]
    );
    assert_eq!(
        scan_all(".x"),
        vec![
            Token::new(TokenKind::Dot, 1),
            Token::new(TokenKind::Identifier, 1),
            Token::new(TokenKind::EOF, 0),
        ]
    );
}

#[test]
fn escapes_hide_quotes_in_strings() {
    assert_eq!(
        scan_all("\"a\\\"b\" c"),
        vec![
            Token::new(TokenKind::Literal { kind: LiteralKind::Str { terminated: true } }, 6),
            Token::new(TokenKind::Whitespace, 1),
            Token::new(TokenKind::Identifier, 1),
            Token::new(TokenKind::EOF, 0),
        ]
    );
    assert_eq!(
        scan_all("\"a\\\\\"b"),
        vec![
            Token::new(TokenKind::Literal { kind: LiteralKind::Str { terminated: true } }, 5),
            Token::new(TokenKind::Identifier, 1),
            Token::new(TokenKind::EOF, 0),
        ]
    );
    // A backslash before anything else hides nothing.
    assert_eq!(
        scan_all("\"a\\n\""),
        vec![
            Token::new(TokenKind::Literal { kind: LiteralKind::Str { terminated: true } }, 5),
            Token::new(TokenKind::EOF, 0),
        ]
    );
    assert_eq!(
        scan_all("\"a\\\""),
        vec![
            Token::new(TokenKind::Literal { kind: LiteralKind::Str { terminated: false } }, 4),
            Token::new(TokenKind::EOF, 0),
        ]
    );
}

#[test]
fn character_literals_take_one_character_or_one_escaped_pair() {
    assert_eq!(
        scan_all("'\\n'"),
        vec![
            Token::new(TokenKind::Literal { kind: LiteralKind::Char { terminated: true } }, 4),
            Token::new(TokenKind::EOF, 0),
        ]
    );
    assert_eq!(
        scan_all("'\\''"),
        vec![
            Token::new(TokenKind::Literal { kind: LiteralKind::Char { terminated: true } }, 4),
            Token::new(TokenKind::EOF, 0),
        ]
    );
    assert_eq!(
        scan_all("'ab'"),
        vec![
            Token::new(TokenKind::Literal { kind: LiteralKind::Char { terminated: false } }, 2),
            Token::new(TokenKind::Identifier, 1),
            Token::new(TokenKind::Literal { kind: LiteralKind::Char { terminated: false } }, 1),
            Token::new(TokenKind::EOF, 0),
        ]
    );
    assert_eq!(
        scan_all("'\u{e9}'"),
        vec![
            Token::new(TokenKind::Literal { kind: LiteralKind::Char { terminated: true } }, 4),
            Token::new(TokenKind::EOF, 0),
        ]
    );
}

#[test]
fn whitespace_runs_are_one_token() {
    assert_eq!(
        scan_all(" \t\r\n\u{85}\u{200e}\u{2028}x"),
        vec![
            Token::new(TokenKind::Whitespace, 12),
            Token::new(TokenKind::Identifier, 1),
            Token::new(TokenKind::EOF, 0),
        ]
    );
    // A no-break space is no whitespace here.
    check("\u{a0}", TokenKind::Unknown);
}

#[test]
fn the_end_of_input_repeats() {
    let mut lex = Lexer::new("a");
    assert_eq!(lex.next_token(), Token::new(TokenKind::Identifier, 1));
    assert_eq!(lex.next_token(), Token::new(TokenKind::EOF, 0));
    assert_eq!(lex.next_token(), Token::new(TokenKind::EOF, 0));
}

#[test]
fn character_classes() {
    assert!(is_whitespace(' '));
    assert!(is_whitespace('\u{2029}'));
    assert!(!is_whitespace('a'));
    assert!(is_identifier_start('_'));
    assert!(is_identifier_start('z'));
    assert!(is_identifier_start('A'));
    assert!(!is_identifier_start('1'));
    assert!(!is_identifier_start('\u{e9}'));
    assert!(is_digit('0'));
    assert!(is_digit('9'));
    assert!(is_digit('_'));
    assert!(!is_digit('a'));
}

#[test]
fn cursor_primitives() {
    let mut lex = Lexer::new("ab\u{e9}");
    assert!(!lex.is_eof());
    assert_eq!(lex.peek_first(), 'a');
    assert_eq!(lex.peek_second(), 'b');
    assert_eq!(lex.tok_length(), 0);
    assert_eq!(lex.take(), Some('a'));
    assert_eq!(lex.position(), 1);
    assert_eq!(lex.tok_length(), 1);
    assert_eq!(lex.peek_second(), '\u{e9}');
    assert_eq!(lex.take(), Some('b'));
    assert_eq!(lex.peek_first(), '\u{e9}');
    assert_eq!(lex.peek_second(), '\0');
    lex.set_length();
    assert_eq!(lex.tok_length(), 0);
    assert_eq!(lex.take(), Some('\u{e9}'));
    assert_eq!(lex.tok_length(), 2);
    assert!(lex.is_eof());
    assert_eq!(lex.peek_first(), '\0');
    assert_eq!(lex.take(), None);
    assert_eq!(lex.tok_length(), 2);
    assert_eq!(lex.nth(2), '\u{e9}');
}

#[test]
fn take_while_stops_at_the_first_refusal() {
    let mut lex = Lexer::new("aaab");
    lex.take_while(|c: char| c == 'a');
    assert_eq!(lex.position(), 3);
    assert_eq!(lex.peek_first(), 'b');
    lex.take_while(is_digit);
    assert_eq!(lex.position(), 3);
    lex.take_while(|_c: char| true);
    assert!(lex.is_eof());
    assert_eq!(lex.tok_length(), 4);
}

#[test]
fn scanning_pieces() {
    let mut lex = Lexer::new("  x");
    assert_eq!(lex.whitespace(), TokenKind::Whitespace);
    assert_eq!(lex.position(), 2);
    assert_eq!(lex.identifier(), TokenKind::Identifier);
    assert_eq!(lex.position(), 3);

    let mut lex = Lexer::new("ab\" c");
    assert!(lex.literal_string());
    assert_eq!(lex.position(), 3);
    let mut lex = Lexer::new("ab");
    assert!(!lex.literal_string());
    assert_eq!(lex.position(), 2);

    let mut lex = Lexer::new("a' ");
    assert!(lex.literal_char());
    assert_eq!(lex.position(), 2);
    let mut lex = Lexer::new("' ");
    assert!(!lex.literal_char());
    assert_eq!(lex.position(), 1);
}

#[test]
fn widths_and_characters() {
    assert_eq!(utf8_width('a'), 1);
    assert_eq!(utf8_width('\u{7f}'), 1);
    assert_eq!(utf8_width('\u{80}'), 2);
    assert_eq!(utf8_width('\u{7ff}'), 2);
    assert_eq!(utf8_width('\u{800}'), 3);
    assert_eq!(utf8_width('\u{ffff}'), 3);
    assert_eq!(utf8_width('\u{10000}'), 4);
    assert_eq!(utf8_width('\u{10ffff}'), 4);
    assert_eq!(to_chars("a\u{e9}\u{2192}"), vec!['a', '\u{e9}', '\u{2192}']);
    assert_eq!(to_chars(""), Vec::<char>::new());
}
