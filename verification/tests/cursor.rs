use frontend::ast::token::{LiteralKind, Token, TokenKind};
use frontend::ast::{BlockExpression, Statement};
use frontend::parse::block::end_of_unterminated;
use frontend::parse::{ParseError, Parser};

fn int_token(start: usize, end: usize) -> Token {
    Token::new(TokenKind::Literal { kind: LiteralKind::Int }, start, end)
}

#[test]
fn peeking_moves_nothing() {
    let parser = Parser::new("a , 1");
    assert_eq!(parser.peek(0), Token::new(TokenKind::Identifier, 0, 1));
    assert_eq!(parser.peek(1), Token::new(TokenKind::Comma, 2, 3));
    assert_eq!(parser.peek(2), int_token(4, 5));
    assert_eq!(parser.peek(3), Token::new(TokenKind::EOF, 5, 5));
    assert_eq!(parser.peek(400), Token::new(TokenKind::EOF, 5, 5));
    assert_eq!(parser.peek(usize::MAX), Token::new(TokenKind::EOF, 5, 5));
    assert_eq!(parser.mark(), 0);
    assert!(parser.check(TokenKind::Identifier));
    assert!(!parser.check(TokenKind::Comma));
}

#[test]
fn taking_and_bumping() {
    let mut parser = Parser::new("a , 1");
    assert_eq!(parser.take(), Token::new(TokenKind::Identifier, 0, 1));
    assert_eq!(parser.mark(), 1);
    parser.bump();
    assert_eq!(parser.mark(), 2);
    assert_eq!(parser.take(), int_token(4, 5));
    // The cursor never moves past the end of input.
    assert_eq!(parser.take(), Token::new(TokenKind::EOF, 5, 5));
    assert_eq!(parser.mark(), 3);
    parser.bump();
    assert_eq!(parser.mark(), 3);
    assert_eq!(parser.take().kind, TokenKind::EOF);
}

#[test]
fn checked_moves() {
    let mut parser = Parser::new("a , 1");
    assert_eq!(parser.take_check(TokenKind::Comma), None);
    assert_eq!(parser.mark(), 0);
    assert_eq!(
        parser.take_check(TokenKind::Identifier),
        Some(Token::new(TokenKind::Identifier, 0, 1))
    );
    assert!(!parser.bump_check(TokenKind::Identifier));
    assert_eq!(parser.mark(), 1);
    assert!(parser.bump_check(TokenKind::Comma));
    assert_eq!(parser.mark(), 2);
    assert_eq!(parser.errors, Vec::new());
}

#[test]
fn expected_tokens() {
    let mut parser = Parser::new("a , 1");
    assert_eq!(
        parser.take_expect(TokenKind::Comma),
        Err(ParseError::ExpectedSingle {
            expected: TokenKind::Comma,
            found: Token::new(TokenKind::Identifier, 0, 1),
        })
    );
    assert_eq!(parser.mark(), 0);
    assert_eq!(
        parser.take_expect(TokenKind::Identifier),
        Ok(Token::new(TokenKind::Identifier, 0, 1))
    );
    assert_eq!(parser.bump_expect(TokenKind::Comma), Ok(()));
    assert_eq!(
        parser.bump_expect(TokenKind::Comma),
        Err(ParseError::ExpectedSingle { expected: TokenKind::Comma, found: int_token(4, 5) })
    );
    assert_eq!(parser.mark(), 2);
    // Nothing was recorded: the errors were handed to the caller.
    assert_eq!(parser.errors, Vec::new());
}

#[test]
fn recording_goes_on() {
    let mut parser = Parser::new("a , 1");
    assert!(!parser.bump_recover(TokenKind::Comma));
    assert_eq!(parser.mark(), 0);
    assert!(parser.bump_recover(TokenKind::Identifier));
    assert_eq!(parser.mark(), 1);
    parser.recover_error(ParseError::OuterExpression);
    assert_eq!(
        parser.errors,
        vec![
            ParseError::ExpectedSingle {
                expected: TokenKind::Comma,
                found: Token::new(TokenKind::Identifier, 0, 1),
            },
            ParseError::OuterExpression,
        ]
    );
}

#[test]
fn skipping_while_a_predicate_holds() {
    let mut parser = Parser::new("a b : c , d");
    parser.bump_while(|kind: TokenKind| kind == TokenKind::Identifier || kind == TokenKind::Colon);
    assert_eq!(parser.mark(), 4);
    assert_eq!(parser.peek(0).kind, TokenKind::Comma);
    parser.bump_while(|kind: TokenKind| kind == TokenKind::Identifier);
    assert_eq!(parser.mark(), 4);
    // The end of input stops the skipping whatever the predicate says.
    parser.bump_while(|_kind: TokenKind| true);
    assert_eq!(parser.mark(), 6);
    assert_eq!(parser.peek(0).kind, TokenKind::EOF);
}

#[test]
fn marks_bring_the_cursor_back() {
    let mut parser = Parser::new("a b c");
    parser.bump();
    let mark = parser.mark();
    parser.bump();
    parser.bump();
    assert_eq!(parser.peek(0).kind, TokenKind::EOF);
    parser.reset(mark);
    assert_eq!(parser.peek(0), Token::new(TokenKind::Identifier, 2, 3));
    assert_eq!(parser.mark(), 1);
}

#[test]
fn texts_of_tokens() {
    let mut parser = Parser::new("alpha b\u{e9}ta");
    assert_eq!(parser.lexeme(), "alpha");
    assert_eq!(parser.get_lexeme(1), "b\u{e9}ta");
    assert_eq!(parser.get_lexeme(2), "");
    assert_eq!(parser.take_name(), Ok(String::from("alpha")));
    assert_eq!(parser.take_name(), Ok(String::from("b\u{e9}ta")));
    assert_eq!(
        parser.take_name(),
        Err(ParseError::ExpectedSingle {
            expected: TokenKind::Identifier,
            found: Token::new(TokenKind::EOF, 11, 11),
        })
    );
}

#[test]
fn statements_one_by_one() {
    let mut parser = Parser::new("a; b");
    let first = parser.parse_statement();
    assert!(matches!(first, Ok(Statement::Expression { .. })));
    assert_eq!(parser.mark(), 2);
    let second = parser.parse_statement();
    match &second {
        Ok(statement) => {
            assert_eq!(end_of_unterminated(statement), Some(Token::new(TokenKind::EOF, 4, 4)))
        }
        Err(error) => panic!("{:?}", error),
    }
    // At the end of input the statement stands for it and nothing moves.
    assert_eq!(parser.parse_statement(), Ok(Statement::EOF));
    assert_eq!(parser.parse_statement(), Ok(Statement::EOF));
    assert_eq!(parser.mark(), 3);
}

#[test]
fn the_pieces_of_a_block() {
    let mut parser = Parser::new("a; b c }");
    let statements = parser.parse_statements();
    assert_eq!(statements.len(), 3);
    assert_eq!(parser.peek(0).kind, TokenKind::CloseBrace);
    assert_eq!(parser.errors, Vec::new());
    parser.validate_statements(&statements);
    assert_eq!(
        parser.errors,
        vec![ParseError::ExpectedSingle {
            expected: TokenKind::Semi,
            found: Token::new(TokenKind::Identifier, 5, 6),
        }]
    );
    parser.validate_statement(&statements[0]);
    assert_eq!(parser.errors.len(), 1);
    parser.check_outer(&statements);
    assert_eq!(parser.errors.len(), 3);
    assert_eq!(parser.errors[1], ParseError::OuterExpression);
    assert_eq!(parser.errors[2], ParseError::OuterExpression);

    let mut parser = Parser::new("x");
    assert_eq!(
        parser.parse_block(),
        Err(ParseError::ExpectedSingle {
            expected: TokenKind::OpenBrace,
            found: Token::new(TokenKind::Identifier, 0, 1),
        })
    );
    let mut parser = Parser::new("{ }");
    assert_eq!(
        parser.parse_block(),
        Ok(BlockExpression { statements: Vec::new(), expression: None })
    );
}
