use frontend::ast::token::{LiteralKind, OpKind, Token, TokenKind};
use frontend::ast::{
    ASTree, BinaryExpression, BinaryOperator, BlockExpression, ClosureExpression, ElseExpression,
    EnumStatement, Expression, FloatKind, FunctionStatement, IdentExpression, IfExpression,
    IntKind, LetStatement, List, LitKind, LiteralExpression, Parameter, Statement,
    StructStatement, Tuple, TupleType, Type, UnaryExpression, UnaryOperator,
};
use frontend::parse::literal::{
    binop_tok_to_ast, infix_binding_power, integer_of, literal_value, prefix_binding_power,
    unop_tok_to_ast, unquote,
};
use frontend::parse::types::{begins_entry, stops_skip, type_from_chars};
use frontend::parse::{ParseError, Parser};

fn num(value: u128) -> Expression {
    Expression::Literal(LiteralExpression { kind: LitKind::Int(value) })
}

fn ident(name: &str) -> Expression {
    Expression::Identifier(IdentExpression { name: String::from(name) })
}

fn bin(op: BinaryOperator, lhs: Expression, rhs: Expression) -> Expression {
    Expression::Binary(Box::new(BinaryExpression { lhs, rhs, op }))
}

fn un(op: UnaryOperator, rhs: Expression) -> Expression {
    Expression::Unary(Box::new(UnaryExpression { rhs, op }))
}

fn tuple(items: Vec<Expression>) -> Expression {
    Expression::Literal(LiteralExpression { kind: LitKind::Tuple(Tuple(items)) })
}

fn list(items: Vec<Expression>) -> Expression {
    Expression::Literal(LiteralExpression { kind: LitKind::List(List(items)) })
}

fn i32_type() -> Type {
    Type::Int { sign: true, kind: IntKind::Bit32 }
}

fn param(name: &str, param_type: Type) -> Parameter {
    Parameter { name: String::from(name), param_type }
}

fn empty_block() -> BlockExpression {
    BlockExpression { statements: Vec::new(), expression: None }
}

/// Parses `src` as one expression that takes the whole text.
fn expr(src: &str) -> Expression {
    let mut parser = Parser::new(src);
    let parsed = parser.parse_expr(0);
    assert_eq!(parser.errors, Vec::new());
    assert_eq!(parser.peek(0).kind, TokenKind::EOF);
    match parsed {
        Ok(expression) => expression,
        Err(error) => panic!("{:?}", error),
    }
}

fn statements(src: &str) -> Vec<Statement> {
    let (tree, errors) = Parser::parse(src);
    assert_eq!(errors, Vec::new());
    tree.root
}

fn errors(src: &str) -> Vec<ParseError> {
    Parser::parse(src).1
}

#[test]
fn tighter_operators_group_first() {
    assert_eq!(
        expr("1 + 2 * 3"),
        bin(BinaryOperator::Add, num(1), bin(BinaryOperator::Mul, num(2), num(3)))
    );
    assert_eq!(
        expr("1 | 2 & 3"),
        bin(BinaryOperator::BitOr, num(1), bin(BinaryOperator::BitAnd, num(2), num(3)))
    );
    assert_eq!(
        expr("a || b && c"),
        bin(
            BinaryOperator::BoolOr,
            ident("a"),
            bin(BinaryOperator::BoolAnd, ident("b"), ident("c"))
        )
    );
    assert_eq!(
        expr("1 * 2 + 3"),
        bin(BinaryOperator::Add, bin(BinaryOperator::Mul, num(1), num(2)), num(3))
    );
}

#[test]
fn equal_operators_group_to_the_left() {
    assert_eq!(
        expr("1 - 2 - 3"),
        bin(BinaryOperator::Sub, bin(BinaryOperator::Sub, num(1), num(2)), num(3))
    );
    assert_eq!(
        expr("8 / 4 * 2"),
        bin(BinaryOperator::Mul, bin(BinaryOperator::Div, num(8), num(4)), num(2))
    );
    assert_eq!(
        expr("a << 1 >> 2"),
        bin(
            BinaryOperator::BitRight,
            bin(BinaryOperator::BitLeft, ident("a"), num(1)),
            num(2)
        )
    );
}

#[test]
fn modulo_and_pipe_sit_below_their_usual_place() {
    // Modulo binds less tightly than the bitwise operators.
    assert_eq!(
        expr("a % b | c"),
        bin(BinaryOperator::Mod, ident("a"), bin(BinaryOperator::BitOr, ident("b"), ident("c")))
    );
    // The pipe binds more tightly than comparisons and less than modulo.
    assert_eq!(
        expr("a |> b == c"),
        bin(BinaryOperator::Eq, bin(BinaryOperator::Pipe, ident("a"), ident("b")), ident("c"))
    );
    assert_eq!(
        expr("a |> b % c"),
        bin(BinaryOperator::Pipe, ident("a"), bin(BinaryOperator::Mod, ident("b"), ident("c")))
    );
    // Xor binds more tightly than and, which binds more tightly than or.
    assert_eq!(
        expr("a & b ^ c"),
        bin(
            BinaryOperator::BitAnd,
            ident("a"),
            bin(BinaryOperator::BitXor, ident("b"), ident("c"))
        )
    );
    assert_eq!(
        expr("a < b && c >= d"),
        bin(
            BinaryOperator::BoolAnd,
            bin(BinaryOperator::Lt, ident("a"), ident("b")),
            bin(BinaryOperator::Ge, ident("c"), ident("d"))
        )
    );
}

#[test]
fn prefix_operators() {
    assert_eq!(
        expr("-a * b"),
        bin(BinaryOperator::Mul, un(UnaryOperator::Minus, ident("a")), ident("b"))
    );
    assert_eq!(
        expr("~a + +b"),
        bin(
            BinaryOperator::Add,
            un(UnaryOperator::BitNot, ident("a")),
            un(UnaryOperator::Plus, ident("b"))
        )
    );
    // Boolean not binds less tightly than a comparison.
    assert_eq!(
        expr("!a == b"),
        un(UnaryOperator::BoolNot, bin(BinaryOperator::Eq, ident("a"), ident("b")))
    );
    assert_eq!(
        expr("!a || b"),
        bin(BinaryOperator::BoolOr, un(UnaryOperator::BoolNot, ident("a")), ident("b"))
    );
    assert_eq!(
        expr("- - 1"),
        un(UnaryOperator::Minus, un(UnaryOperator::Minus, num(1)))
    );
}

#[test]
fn binding_powers() {
    assert_eq!(prefix_binding_power(UnaryOperator::BoolNot), ((), 5));
    assert_eq!(prefix_binding_power(UnaryOperator::BitNot), ((), 25));
    assert_eq!(prefix_binding_power(UnaryOperator::Plus), ((), 25));
    assert_eq!(prefix_binding_power(UnaryOperator::Minus), ((), 25));
    assert_eq!(infix_binding_power(BinaryOperator::BoolOr), (1, 2));
    assert_eq!(infix_binding_power(BinaryOperator::BoolAnd), (3, 4));
    assert_eq!(infix_binding_power(BinaryOperator::Eq), (7, 8));
    assert_eq!(infix_binding_power(BinaryOperator::Ne), (7, 8));
    assert_eq!(infix_binding_power(BinaryOperator::Ge), (7, 8));
    assert_eq!(infix_binding_power(BinaryOperator::Le), (7, 8));
    assert_eq!(infix_binding_power(BinaryOperator::Gt), (7, 8));
    assert_eq!(infix_binding_power(BinaryOperator::Lt), (7, 8));
    assert_eq!(infix_binding_power(BinaryOperator::Pipe), (9, 10));
    assert_eq!(infix_binding_power(BinaryOperator::Mod), (11, 12));
    assert_eq!(infix_binding_power(BinaryOperator::BitOr), (13, 14));
    assert_eq!(infix_binding_power(BinaryOperator::BitAnd), (15, 16));
    assert_eq!(infix_binding_power(BinaryOperator::BitXor), (17, 18));
    assert_eq!(infix_binding_power(BinaryOperator::BitRight), (19, 20));
    assert_eq!(infix_binding_power(BinaryOperator::BitLeft), (19, 20));
    assert_eq!(infix_binding_power(BinaryOperator::Add), (21, 22));
    assert_eq!(infix_binding_power(BinaryOperator::Sub), (21, 22));
    assert_eq!(infix_binding_power(BinaryOperator::Mul), (23, 24));
    assert_eq!(infix_binding_power(BinaryOperator::Div), (23, 24));
}

#[test]
fn operators_of_tokens() {
    assert_eq!(binop_tok_to_ast(TokenKind::Op { kind: OpKind::Pipe }), Some(BinaryOperator::BitOr));
    assert_eq!(binop_tok_to_ast(TokenKind::Op { kind: OpKind::ShiftL }), Some(BinaryOperator::BitLeft));
    assert_eq!(binop_tok_to_ast(TokenKind::Op { kind: OpKind::ShiftR }), Some(BinaryOperator::BitRight));
    assert_eq!(binop_tok_to_ast(TokenKind::Op { kind: OpKind::Percent }), Some(BinaryOperator::Mod));
    assert_eq!(binop_tok_to_ast(TokenKind::PipeGt), Some(BinaryOperator::Pipe));
    assert_eq!(binop_tok_to_ast(TokenKind::BangEq), Some(BinaryOperator::Ne));
    assert_eq!(binop_tok_to_ast(TokenKind::LtEq), Some(BinaryOperator::Le));
    assert_eq!(binop_tok_to_ast(TokenKind::Op { kind: OpKind::Tilde }), None);
    assert_eq!(binop_tok_to_ast(TokenKind::Eq), None);
    assert_eq!(binop_tok_to_ast(TokenKind::Bang), None);
    assert_eq!(unop_tok_to_ast(TokenKind::Bang), Some(UnaryOperator::BoolNot));
    assert_eq!(unop_tok_to_ast(TokenKind::Op { kind: OpKind::Tilde }), Some(UnaryOperator::BitNot));
    assert_eq!(unop_tok_to_ast(TokenKind::Op { kind: OpKind::Plus }), Some(UnaryOperator::Plus));
    assert_eq!(unop_tok_to_ast(TokenKind::Op { kind: OpKind::Minus }), Some(UnaryOperator::Minus));
    assert_eq!(unop_tok_to_ast(TokenKind::Op { kind: OpKind::Star }), None);
}

#[test]
fn parentheses_and_tuples() {
    assert_eq!(expr("(1)"), num(1));
    assert_eq!(expr("(1,)"), tuple(vec![num(1)]));
    assert_eq!(expr("(1,2)"), tuple(vec![num(1), num(2)]));
    assert_eq!(expr("(1, 2, 3,)"), tuple(vec![num(1), num(2), num(3)]));
    assert_eq!(
        expr("(1 + 2) * 3"),
        bin(BinaryOperator::Mul, bin(BinaryOperator::Add, num(1), num(2)), num(3))
    );
    assert_eq!(expr("((a))"), ident("a"));
    assert_eq!(expr("((1,),)"), tuple(vec![tuple(vec![num(1)])]));
}

#[test]
fn lists() {
    assert_eq!(expr("[]"), list(Vec::new()));
    assert_eq!(expr("[1]"), list(vec![num(1)]));
    assert_eq!(expr("[1, 2, 3]"), list(vec![num(1), num(2), num(3)]));
    assert_eq!(expr("[1, 2,]"), list(vec![num(1), num(2)]));
    assert_eq!(expr("[[a], (b, c)]"), list(vec![list(vec![ident("a")]), tuple(vec![ident("b"), ident("c")])]));
}

#[test]
fn a_missing_comma_in_a_tuple_is_recorded() {
    let mut parser = Parser::new("(1, 2 3 4, 5)");
    let parsed = parser.parse_expr(0);
    assert_eq!(parsed, Ok(tuple(vec![num(1), num(2), num(3), num(4), num(5)])));
    assert_eq!(
        parser.errors,
        vec![
            ParseError::ExpectedSingle {
                expected: TokenKind::Comma,
                found: Token::new(TokenKind::Literal { kind: LiteralKind::Int }, 6, 7),
            },
            ParseError::ExpectedSingle {
                expected: TokenKind::Comma,
                found: Token::new(TokenKind::Literal { kind: LiteralKind::Int }, 8, 9),
            },
        ]
    );
}

#[test]
fn an_element_that_fails_ends_a_list_and_fails_a_tuple() {
    let close_paren = Token::new(TokenKind::CloseParen, 4, 5);
    let mut parser = Parser::new("[1, )]");
    let parsed = parser.parse_expr(0);
    assert_eq!(
        parsed,
        Err(ParseError::ExpectedSingle { expected: TokenKind::CloseBracket, found: close_paren })
    );
    assert_eq!(
        parser.errors,
        vec![ParseError::ExpectedNode { expected: String::from("expression"), found: close_paren }]
    );
    assert_eq!(parser.mark(), 3);

    let close_bracket = Token::new(TokenKind::CloseBracket, 4, 5);
    let mut parser = Parser::new("(1, ])");
    let parsed = parser.parse_expr(0);
    assert_eq!(
        parsed,
        Err(ParseError::ExpectedNode { expected: String::from("expression"), found: close_bracket })
    );
    assert_eq!(parser.errors, Vec::new());
}

#[test]
fn literals() {
    assert_eq!(expr("true"), Expression::Literal(LiteralExpression { kind: LitKind::Bool(true) }));
    assert_eq!(expr("false"), Expression::Literal(LiteralExpression { kind: LitKind::Bool(false) }));
    assert_eq!(expr("0"), num(0));
    assert_eq!(
        expr("340282366920938463463374607431768211455"),
        num(340282366920938463463374607431768211455)
    );
    assert_eq!(
        expr("12.5"),
        Expression::Literal(LiteralExpression { kind: LitKind::Float(String::from("12.5")) })
    );
    assert_eq!(
        expr(".5"),
        Expression::Literal(LiteralExpression { kind: LitKind::Float(String::from(".5")) })
    );
    assert_eq!(
        expr("\"foobar\""),
        Expression::Literal(LiteralExpression { kind: LitKind::Str(String::from("foobar")) })
    );
    assert_eq!(
        expr("\"\""),
        Expression::Literal(LiteralExpression { kind: LitKind::Str(String::new()) })
    );
    assert_eq!(
        expr("'a'"),
        Expression::Literal(LiteralExpression { kind: LitKind::Char('a') })
    );
    assert_eq!(
        expr("'\u{e9}'"),
        Expression::Literal(LiteralExpression { kind: LitKind::Char('\u{e9}') })
    );
}

#[test]
fn escapes_stay_as_they_are_written() {
    assert_eq!(
        expr("\"a\\\"b\\n\""),
        Expression::Literal(LiteralExpression { kind: LitKind::Str(String::from("a\\\"b\\n")) })
    );
}

#[test]
fn values_of_literal_texts() {
    assert_eq!(
        Parser::parse_literal(LiteralKind::Int, "42"),
        LiteralExpression { kind: LitKind::Int(42) }
    );
    assert_eq!(
        Parser::parse_literal(LiteralKind::Int, "+42"),
        LiteralExpression { kind: LitKind::Int(42) }
    );
    assert_eq!(
        Parser::parse_literal(LiteralKind::Int, "007"),
        LiteralExpression { kind: LitKind::Int(7) }
    );
    assert_eq!(
        Parser::parse_literal(LiteralKind::Bool, "true"),
        LiteralExpression { kind: LitKind::Bool(true) }
    );
    assert_eq!(
        Parser::parse_literal(LiteralKind::Float, "1.5"),
        LiteralExpression { kind: LitKind::Float(String::from("1.5")) }
    );
    assert_eq!(
        Parser::parse_literal(LiteralKind::Str { terminated: true }, "\"hi\""),
        LiteralExpression { kind: LitKind::Str(String::from("hi")) }
    );
    // The first and the last character go, whatever they are.
    assert_eq!(
        Parser::parse_literal(LiteralKind::Str { terminated: false }, "\"foobar"),
        LiteralExpression { kind: LitKind::Str(String::from("fooba")) }
    );
    assert_eq!(
        Parser::parse_literal(LiteralKind::Char { terminated: true }, "'x'"),
        LiteralExpression { kind: LitKind::Char('x') }
    );
}

#[test]
fn texts_without_a_value() {
    assert_eq!(Parser::try_parse_literal(LiteralKind::Int, ""), None);
    assert_eq!(Parser::try_parse_literal(LiteralKind::Int, "+"), None);
    assert_eq!(Parser::try_parse_literal(LiteralKind::Int, "-1"), None);
    assert_eq!(Parser::try_parse_literal(LiteralKind::Int, "1_000"), None);
    assert_eq!(Parser::try_parse_literal(LiteralKind::Int, "12a"), None);
    assert_eq!(
        Parser::try_parse_literal(LiteralKind::Int, "340282366920938463463374607431768211456"),
        None
    );
    assert_eq!(
        Parser::try_parse_literal(LiteralKind::Int, "3402823669209384634633746074317682114550"),
        None
    );
    assert_eq!(Parser::try_parse_literal(LiteralKind::Bool, "True"), None);
    assert_eq!(Parser::try_parse_literal(LiteralKind::Bool, ""), None);
    assert_eq!(Parser::try_parse_literal(LiteralKind::Str { terminated: false }, "\""), None);
    assert_eq!(
        Parser::try_parse_literal(LiteralKind::Str { terminated: false }, "\"a\u{e9}"),
        None
    );
    assert_eq!(Parser::try_parse_literal(LiteralKind::Char { terminated: false }, "''"), None);
    assert_eq!(Parser::try_parse_literal(LiteralKind::Char { terminated: false }, "'a"), None);
    assert_eq!(Parser::try_parse_literal(LiteralKind::Char { terminated: true }, "'\\n'"), None);
    assert_eq!(
        Parser::try_parse_literal(LiteralKind::Int, "18446744073709551616"),
        Some(LiteralExpression { kind: LitKind::Int(18446744073709551616) })
    );
}

#[test]
fn literal_pieces() {
    let chars: Vec<char> = vec!['x', '+', '1', '2', '\'', 'a', '\''];
    assert_eq!(integer_of(&chars, 2, 4), Some(12));
    assert_eq!(integer_of(&chars, 1, 4), Some(12));
    assert_eq!(integer_of(&chars, 0, 4), None);
    assert_eq!(integer_of(&chars, 1, 2), None);
    assert_eq!(integer_of(&chars, 3, 3), None);
    assert_eq!(unquote(&chars, 4, 7), Some((5, 6)));
    assert_eq!(unquote(&chars, 4, 6), Some((5, 5)));
    assert_eq!(unquote(&chars, 4, 5), None);
    assert_eq!(
        literal_value(LiteralKind::Char { terminated: true }, &chars, 4, 7),
        Some(LiteralExpression { kind: LitKind::Char('a') })
    );
    assert_eq!(literal_value(LiteralKind::Int, &chars, 0, 1), None);
}

#[test]
fn a_literal_without_a_value_is_an_error() {
    assert_eq!(
        errors("1_000;"),
        vec![ParseError::ExpectedNode {
            expected: String::from("literal"),
            found: Token::new(TokenKind::Literal { kind: LiteralKind::Int }, 0, 5),
        }]
    );
    assert_eq!(
        errors("'\\n';"),
        vec![ParseError::ExpectedNode {
            expected: String::from("literal"),
            found: Token::new(
                TokenKind::Literal { kind: LiteralKind::Char { terminated: true } },
                0,
                4
            ),
        }]
    );
}

#[test]
fn blocks_promote_their_last_expression() {
    let one = Statement::Expression { expr: num(1), end_token: Token::new(TokenKind::Semi, 3, 4) };
    assert_eq!(
        expr("{ 1; 2 }"),
        Expression::Block(Box::new(BlockExpression {
            statements: vec![one],
            expression: Some(num(2)),
        }))
    );
    let one = Statement::Expression { expr: num(1), end_token: Token::new(TokenKind::Semi, 3, 4) };
    let two = Statement::Expression { expr: num(2), end_token: Token::new(TokenKind::Semi, 6, 7) };
    assert_eq!(
        expr("{ 1; 2; }"),
        Expression::Block(Box::new(BlockExpression {
            statements: vec![one, two],
            expression: None,
        }))
    );
    assert_eq!(expr("{}"), Expression::Block(Box::new(empty_block())));
    assert_eq!(
        expr("{ a }"),
        Expression::Block(Box::new(BlockExpression {
            statements: Vec::new(),
            expression: Some(ident("a")),
        }))
    );
    assert_eq!(
        expr("{ let x = 1; }"),
        Expression::Block(Box::new(BlockExpression {
            statements: vec![Statement::Let(LetStatement { name: String::from("x"), value: num(1) })],
            expression: None,
        }))
    );
}

#[test]
fn an_inner_expression_without_semicolon_is_recorded() {
    let mut parser = Parser::new("{ 1 2 }");
    let parsed = parser.parse_expr(0);
    let two = Token::new(TokenKind::Literal { kind: LiteralKind::Int }, 4, 5);
    assert_eq!(
        parsed,
        Ok(Expression::Block(Box::new(BlockExpression {
            statements: vec![Statement::Expression { expr: num(1), end_token: two }],
            expression: Some(num(2)),
        })))
    );
    assert_eq!(
        parser.errors,
        vec![ParseError::ExpectedSingle { expected: TokenKind::Semi, found: two }]
    );
}

#[test]
fn a_block_that_never_closes_fails() {
    let end = Token::new(TokenKind::EOF, 4, 4);
    assert_eq!(
        errors("{ 1;"),
        vec![ParseError::ExpectedSingle { expected: TokenKind::CloseBrace, found: end }]
    );
    let end = Token::new(TokenKind::EOF, 1, 1);
    assert_eq!(
        errors("{"),
        vec![ParseError::ExpectedSingle { expected: TokenKind::CloseBrace, found: end }]
    );
}

#[test]
fn a_statement_that_fails_in_a_block_is_recorded_and_ends_it() {
    let semi = Token::new(TokenKind::Semi, 10, 11);
    assert_eq!(
        errors("{ let x = ; 2 };"),
        vec![
            ParseError::ExpectedNode { expected: String::from("expression"), found: semi },
            ParseError::ExpectedSingle { expected: TokenKind::CloseBrace, found: semi },
        ]
    );
}

#[test]
fn if_expressions() {
    let block = |expression: Expression| BlockExpression {
        statements: Vec::new(),
        expression: Some(expression),
    };
    assert_eq!(
        expr("if a { 1 }"),
        Expression::If(Box::new(IfExpression {
            condition: ident("a"),
            body: block(num(1)),
            else_body: None,
        }))
    );
    assert_eq!(
        expr("if a { 1 } else { 2 }"),
        Expression::If(Box::new(IfExpression {
            condition: ident("a"),
            body: block(num(1)),
            else_body: Some(Box::new(ElseExpression::Else(block(num(2))))),
        }))
    );
    assert_eq!(
        expr("if a { 1 } else if b { 2 } else { 3 }"),
        Expression::If(Box::new(IfExpression {
            condition: ident("a"),
            body: block(num(1)),
            else_body: Some(Box::new(ElseExpression::ElseIf(IfExpression {
                condition: ident("b"),
                body: block(num(2)),
                else_body: Some(Box::new(ElseExpression::Else(block(num(3))))),
            }))),
        }))
    );
    assert_eq!(
        expr("if a == 1 {} + 2"),
        bin(
            BinaryOperator::Add,
            Expression::If(Box::new(IfExpression {
                condition: bin(BinaryOperator::Eq, ident("a"), num(1)),
                body: empty_block(),
                else_body: None,
            })),
            num(2)
        )
    );
}

#[test]
fn closures() {
    assert_eq!(
        expr("\\(x: i32, y: bool) -> i32 { x }"),
        Expression::Closure(Box::new(ClosureExpression {
            arguments: vec![param("x", i32_type()), param("y", Type::Bool)],
            block: BlockExpression { statements: Vec::new(), expression: Some(ident("x")) },
            return_type: i32_type(),
        }))
    );
    assert_eq!(
        expr("\\() -> void {}"),
        Expression::Closure(Box::new(ClosureExpression {
            arguments: Vec::new(),
            block: empty_block(),
            return_type: Type::Void,
        }))
    );
}

#[test]
fn functions() {
    assert_eq!(
        statements("fn add(a: i32, b: i32,) -> i32 { a + b }"),
        vec![Statement::Function(FunctionStatement {
            name: String::from("add"),
            arguments: vec![param("a", i32_type()), param("b", i32_type())],
            return_type: i32_type(),
            block: BlockExpression {
                statements: Vec::new(),
                expression: Some(bin(BinaryOperator::Add, ident("a"), ident("b"))),
            },
        })]
    );
    assert_eq!(
        statements("fn main() -> void {}"),
        vec![Statement::Function(FunctionStatement {
            name: String::from("main"),
            arguments: Vec::new(),
            return_type: Type::Void,
            block: empty_block(),
        })]
    );
}

#[test]
fn one_malformed_parameter_does_not_lose_the_function() {
    let (tree, errors) = Parser::parse("fn f(a: i32, x y: i32) -> void {}");
    assert_eq!(
        tree,
        ASTree::new(vec![Statement::Function(FunctionStatement {
            name: String::from("f"),
            arguments: vec![param("a", i32_type()), param("y", i32_type())],
            return_type: Type::Void,
            block: empty_block(),
        })])
    );
    let y = Token::new(TokenKind::Identifier, 15, 16);
    assert_eq!(
        errors,
        vec![
            ParseError::ExpectedSingle { expected: TokenKind::Colon, found: y },
            ParseError::ExpectedSingle { expected: TokenKind::Comma, found: y },
        ]
    );
}

#[test]
fn malformed_parameters_are_skipped() {
    // The tokens after a malformed entry are passed over up to the next comma.
    let (tree, errors) = Parser::parse("struct S { a: 1 2, b: u8 }");
    assert_eq!(
        tree.root,
        vec![Statement::Struct(StructStatement {
            name: String::from("S"),
            fields: vec![param("b", Type::Int { sign: false, kind: IntKind::Bit8 })],
        })]
    );
    assert_eq!(
        errors,
        vec![ParseError::ExpectedNode {
            expected: String::from("type"),
            found: Token::new(TokenKind::Literal { kind: LiteralKind::Int }, 14, 15),
        }]
    );
    // Up to the closing delimiter too, which then ends the list.
    let (tree, errors) = Parser::parse("struct S { a: u8, b + }");
    assert_eq!(
        tree.root,
        vec![Statement::Struct(StructStatement {
            name: String::from("S"),
            fields: vec![param("a", Type::Int { sign: false, kind: IntKind::Bit8 })],
        })]
    );
    assert_eq!(
        errors,
        vec![ParseError::ExpectedSingle {
            expected: TokenKind::Colon,
            found: Token::new(TokenKind::Op { kind: OpKind::Plus }, 20, 21),
        }]
    );
}

#[test]
fn a_parameter_list_is_given_up_where_nothing_can_follow() {
    // Neither an entry nor the end of the list can begin with a number.
    let one = Token::new(TokenKind::Literal { kind: LiteralKind::Int }, 5, 6);
    assert_eq!(
        Parser::parse("fn f(1) -> void {}"),
        (
            ASTree::new(Vec::new()),
            vec![ParseError::ExpectedSingle { expected: TokenKind::CloseParen, found: one }]
        )
    );
    let one = Token::new(TokenKind::Literal { kind: LiteralKind::Int }, 11, 12);
    assert_eq!(
        Parser::parse("fn f(a: u8 1 2) -> void {}"),
        (
            ASTree::new(Vec::new()),
            vec![ParseError::ExpectedAlternatives {
                expected: vec![TokenKind::Comma, TokenKind::CloseParen],
                found: one,
            }]
        )
    );
    // The end of input ends the skipping, and the list with it.
    let end = Token::new(TokenKind::EOF, 7, 7);
    assert_eq!(
        Parser::parse("fn f(a:"),
        (
            ASTree::new(Vec::new()),
            vec![ParseError::ExpectedNode { expected: String::from("type"), found: end }]
        )
    );
}

#[test]
fn structs_and_enums() {
    assert_eq!(
        statements("struct P { x: f32, y: f64, }"),
        vec![Statement::Struct(StructStatement {
            name: String::from("P"),
            fields: vec![
                param("x", Type::Float { kind: FloatKind::Bit32 }),
                param("y", Type::Float { kind: FloatKind::Bit64 }),
            ],
        })]
    );
    assert_eq!(
        statements("struct Unit {}"),
        vec![Statement::Struct(StructStatement { name: String::from("Unit"), fields: Vec::new() })]
    );
    assert_eq!(
        statements("enum E { A, B, C }"),
        vec![Statement::Enum(EnumStatement {
            name: String::from("E"),
            variants: vec![String::from("A"), String::from("B"), String::from("C")],
        })]
    );
    assert_eq!(
        statements("enum E { A, }"),
        vec![Statement::Enum(EnumStatement {
            name: String::from("E"),
            variants: vec![String::from("A")],
        })]
    );
    assert_eq!(
        statements("enum Never {}"),
        vec![Statement::Enum(EnumStatement { name: String::from("Never"), variants: Vec::new() })]
    );
}

#[test]
fn nothing_inside_an_enum_is_skipped() {
    let one = Token::new(TokenKind::Literal { kind: LiteralKind::Int }, 9, 10);
    assert_eq!(
        Parser::parse("enum E { 1 }"),
        (
            ASTree::new(Vec::new()),
            vec![ParseError::ExpectedAlternatives {
                expected: vec![TokenKind::Identifier, TokenKind::CloseBrace],
                found: one,
            }]
        )
    );
    let b = Token::new(TokenKind::Identifier, 11, 12);
    assert_eq!(
        Parser::parse("enum E { A B }"),
        (
            ASTree::new(Vec::new()),
            vec![ParseError::ExpectedAlternatives {
                expected: vec![TokenKind::Comma, TokenKind::CloseBrace],
                found: b,
            }]
        )
    );
}

#[test]
fn declaration_headers_fail_hard() {
    let open = Token::new(TokenKind::OpenParen, 3, 4);
    assert_eq!(
        Parser::parse("fn () -> void {}"),
        (
            ASTree::new(Vec::new()),
            vec![ParseError::ExpectedSingle { expected: TokenKind::Identifier, found: open }]
        )
    );
    let eq = Token::new(TokenKind::Eq, 4, 5);
    assert_eq!(
        Parser::parse("let = 1;"),
        (
            ASTree::new(Vec::new()),
            vec![ParseError::ExpectedSingle { expected: TokenKind::Identifier, found: eq }]
        )
    );
    let end = Token::new(TokenKind::EOF, 14, 14);
    assert_eq!(
        Parser::parse("fn f() -> void"),
        (
            ASTree::new(Vec::new()),
            vec![ParseError::ExpectedSingle { expected: TokenKind::OpenBrace, found: end }]
        )
    );
    let semi = Token::new(TokenKind::Semi, 8, 9);
    assert_eq!(
        Parser::parse("let x = ;"),
        (
            ASTree::new(Vec::new()),
            vec![ParseError::ExpectedNode { expected: String::from("expression"), found: semi }]
        )
    );
    let end = Token::new(TokenKind::EOF, 9, 9);
    assert_eq!(
        Parser::parse("let x = 1"),
        (
            ASTree::new(Vec::new()),
            vec![ParseError::ExpectedSingle { expected: TokenKind::Semi, found: end }]
        )
    );
}

#[test]
fn statements_before_a_failure_are_kept() {
    let (tree, errors) = Parser::parse("let a = 1; let = 2; let c = 3;");
    assert_eq!(
        tree.root,
        vec![Statement::Let(LetStatement { name: String::from("a"), value: num(1) })]
    );
    assert_eq!(
        errors,
        vec![ParseError::ExpectedSingle {
            expected: TokenKind::Identifier,
            found: Token::new(TokenKind::Eq, 15, 16),
        }]
    );
}

#[test]
fn an_expression_at_the_top_needs_its_semicolon() {
    let (tree, errors) = Parser::parse("1 + 2");
    assert_eq!(
        tree.root,
        vec![Statement::Expression {
            expr: bin(BinaryOperator::Add, num(1), num(2)),
            end_token: Token::new(TokenKind::EOF, 5, 5),
        }]
    );
    assert_eq!(errors, vec![ParseError::OuterExpression]);

    let (tree, errors) = Parser::parse("a; b c;");
    assert_eq!(tree.root.len(), 3);
    assert_eq!(errors, vec![ParseError::OuterExpression]);

    let (tree, errors) = Parser::parse("1 + 2;");
    assert_eq!(
        tree.root,
        vec![Statement::Expression {
            expr: bin(BinaryOperator::Add, num(1), num(2)),
            end_token: Token::new(TokenKind::Semi, 5, 6),
        }]
    );
    assert_eq!(errors, Vec::new());
}

#[test]
fn an_operator_whose_right_side_fails_is_not_taken() {
    let mut parser = Parser::new("1 + ;");
    let parsed = parser.parse_expr(0);
    assert_eq!(
        parsed,
        Err(ParseError::ExpectedNode {
            expected: String::from("expression"),
            found: Token::new(TokenKind::Semi, 4, 5),
        })
    );
    // The cursor stands on the operator again.
    assert_eq!(parser.mark(), 1);
    assert_eq!(parser.peek(0), Token::new(TokenKind::Op { kind: OpKind::Plus }, 2, 3));

    let mut parser = Parser::new("1 * 2 + * 3");
    let parsed = parser.parse_expr(0);
    assert_eq!(
        parsed,
        Err(ParseError::ExpectedAlternatives {
            expected: vec![
                TokenKind::Bang,
                TokenKind::Op { kind: OpKind::Tilde },
                TokenKind::Op { kind: OpKind::Plus },
                TokenKind::Op { kind: OpKind::Minus },
            ],
            found: Token::new(TokenKind::Op { kind: OpKind::Star }, 8, 9),
        })
    );
    assert_eq!(parser.mark(), 3);
}

#[test]
fn what_starts_no_expression() {
    let close = Token::new(TokenKind::CloseBrace, 0, 1);
    assert_eq!(
        errors("}"),
        vec![ParseError::ExpectedNode { expected: String::from("expression"), found: close }]
    );
    let unknown = Token::new(TokenKind::Unknown, 0, 1);
    assert_eq!(
        errors("` 1;"),
        vec![ParseError::ExpectedNode { expected: String::from("expression"), found: unknown }]
    );
    assert_eq!(
        errors("* 3;"),
        vec![ParseError::ExpectedAlternatives {
            expected: vec![
                TokenKind::Bang,
                TokenKind::Op { kind: OpKind::Tilde },
                TokenKind::Op { kind: OpKind::Plus },
                TokenKind::Op { kind: OpKind::Minus },
            ],
            found: Token::new(TokenKind::Op { kind: OpKind::Star }, 0, 1),
        }]
    );
}

#[test]
fn an_expression_stops_before_what_is_no_operator() {
    let mut parser = Parser::new("a = b");
    assert_eq!(parser.parse_expr(0), Ok(ident("a")));
    assert_eq!(parser.peek(0).kind, TokenKind::Eq);
    let mut parser = Parser::new("a + b * c");
    assert_eq!(parser.parse_expr(22), Ok(ident("a")));
    assert_eq!(parser.mark(), 1);
    let mut parser = Parser::new("a * b + c");
    assert_eq!(parser.parse_expr(22), Ok(bin(BinaryOperator::Mul, ident("a"), ident("b"))));
    assert_eq!(parser.mark(), 3);
}

#[test]
fn types() {
    let mut parser = Parser::new("(i32, [u8], fn(bool, P) -> void, (),)");
    assert_eq!(
        parser.parse_type(),
        Ok(Type::Tuple(TupleType(vec![
            i32_type(),
            Type::List(Box::new(Type::Int { sign: false, kind: IntKind::Bit8 })),
            Type::Fn {
                arguments: vec![Type::Bool, Type::UserDefined { name: String::from("P") }],
                return_type: Box::new(Type::Void),
            },
            Type::Tuple(TupleType(Vec::new())),
        ])))
    );
    assert_eq!(parser.errors, Vec::new());
    assert_eq!(parser.peek(0).kind, TokenKind::EOF);
}

#[test]
fn names_of_types() {
    assert_eq!(Parser::parse_type_from_ident("bool"), Type::Bool);
    assert_eq!(Parser::parse_type_from_ident("str"), Type::Str);
    assert_eq!(Parser::parse_type_from_ident("char"), Type::Char);
    assert_eq!(Parser::parse_type_from_ident("u8"), Type::Int { sign: false, kind: IntKind::Bit8 });
    assert_eq!(Parser::parse_type_from_ident("u16"), Type::Int { sign: false, kind: IntKind::Bit16 });
    assert_eq!(Parser::parse_type_from_ident("u32"), Type::Int { sign: false, kind: IntKind::Bit32 });
    assert_eq!(Parser::parse_type_from_ident("u64"), Type::Int { sign: false, kind: IntKind::Bit64 });
    assert_eq!(Parser::parse_type_from_ident("i8"), Type::Int { sign: true, kind: IntKind::Bit8 });
    assert_eq!(Parser::parse_type_from_ident("i16"), Type::Int { sign: true, kind: IntKind::Bit16 });
    assert_eq!(Parser::parse_type_from_ident("i32"), Type::Int { sign: true, kind: IntKind::Bit32 });
    assert_eq!(Parser::parse_type_from_ident("i64"), Type::Int { sign: true, kind: IntKind::Bit64 });
    assert_eq!(Parser::parse_type_from_ident("f32"), Type::Float { kind: FloatKind::Bit32 });
    assert_eq!(Parser::parse_type_from_ident("f64"), Type::Float { kind: FloatKind::Bit64 });
    assert_eq!(Parser::parse_type_from_ident("void"), Type::Void);
    assert_eq!(
        Parser::parse_type_from_ident("u128"),
        Type::UserDefined { name: String::from("u128") }
    );
    assert_eq!(
        Parser::parse_type_from_ident("Point"),
        Type::UserDefined { name: String::from("Point") }
    );
    let chars = vec!['a', 'u', '8', 'b'];
    assert_eq!(type_from_chars(&chars, 1, 3), Type::Int { sign: false, kind: IntKind::Bit8 });
    assert_eq!(type_from_chars(&chars, 0, 3), Type::UserDefined { name: String::from("au8") });
}

#[test]
fn a_list_type_without_its_bracket_is_recorded() {
    let mut parser = Parser::new("[u8 x");
    assert_eq!(
        parser.parse_type(),
        Ok(Type::List(Box::new(Type::Int { sign: false, kind: IntKind::Bit8 })))
    );
    assert_eq!(
        parser.errors,
        vec![ParseError::ExpectedSingle {
            expected: TokenKind::CloseBracket,
            found: Token::new(TokenKind::Identifier, 4, 5),
        }]
    );
    assert_eq!(parser.mark(), 2);
}

#[test]
fn malformed_types_in_a_list_are_skipped() {
    let mut parser = Parser::new("([1], u8, [ 2 3, bool)");
    assert_eq!(
        parser.parse_type(),
        Ok(Type::Tuple(TupleType(vec![
            Type::Int { sign: false, kind: IntKind::Bit8 },
            Type::Bool
        ])))
    );
    assert_eq!(
        parser.errors,
        vec![
            ParseError::ExpectedNode {
                expected: String::from("type"),
                found: Token::new(TokenKind::Literal { kind: LiteralKind::Int }, 2, 3),
            },
            ParseError::ExpectedNode {
                expected: String::from("type"),
                found: Token::new(TokenKind::Literal { kind: LiteralKind::Int }, 12, 13),
            },
        ]
    );
    // A number begins no type: the first entry ends the list at once.
    let mut parser = Parser::new("(1, u8)");
    assert_eq!(
        parser.parse_type(),
        Err(ParseError::ExpectedSingle {
            expected: TokenKind::CloseParen,
            found: Token::new(TokenKind::Literal { kind: LiteralKind::Int }, 1, 2),
        })
    );
    let mut parser = Parser::new("(fn x, u8)");
    assert_eq!(
        parser.parse_type(),
        Ok(Type::Tuple(TupleType(vec![
            Type::UserDefined { name: String::from("x") },
            Type::Int { sign: false, kind: IntKind::Bit8 }
        ])))
    );
    assert_eq!(
        parser.errors,
        vec![
            ParseError::ExpectedSingle {
                expected: TokenKind::OpenParen,
                found: Token::new(TokenKind::Identifier, 4, 5),
            },
            ParseError::ExpectedSingle {
                expected: TokenKind::Comma,
                found: Token::new(TokenKind::Identifier, 4, 5),
            },
        ]
    );
}

#[test]
fn entry_starts_and_skip_stops() {
    assert!(begins_entry(TokenKind::Identifier, false));
    assert!(!begins_entry(TokenKind::OpenParen, false));
    assert!(begins_entry(TokenKind::OpenParen, true));
    assert!(begins_entry(TokenKind::OpenBracket, true));
    assert!(begins_entry(TokenKind::Fn, true));
    assert!(!begins_entry(TokenKind::Comma, true));
    assert!(stops_skip(TokenKind::Comma, false, TokenKind::CloseParen));
    assert!(stops_skip(TokenKind::CloseParen, false, TokenKind::CloseParen));
    assert!(stops_skip(TokenKind::EOF, false, TokenKind::CloseParen));
    assert!(stops_skip(TokenKind::Identifier, false, TokenKind::CloseParen));
    assert!(!stops_skip(TokenKind::CloseBrace, false, TokenKind::CloseParen));
    assert!(!stops_skip(TokenKind::Fn, false, TokenKind::CloseParen));
    assert!(stops_skip(TokenKind::Fn, true, TokenKind::CloseParen));
}

#[test]
fn parsing_twice_gives_the_same_tree() {
    let src = "fn f(a: i32, x y: i32) -> void { let z = [1, (2, 3)]; if z { a } else { -a } }\n\
               struct S { f: fn(u8) -> [str] } enum E { A, B } 1 + ;";
    let first = Parser::parse(src);
    let second = Parser::parse(src);
    assert_eq!(first, second);
    assert_eq!(format!("{:?}", first), format!("{:?}", second));
    assert_eq!(first.0.root.len(), 3);
    assert_eq!(first.1.len(), 3);
}

#[test]
fn an_empty_program() {
    assert_eq!(Parser::parse(""), (ASTree::new(Vec::new()), Vec::new()));
    assert_eq!(Parser::parse("  \n"), (ASTree::new(Vec::new()), Vec::new()));
}
