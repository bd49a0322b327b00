//! Operators and their binding powers, and the values of literal tokens.
use crate::ast::token::{LiteralKind, OpKind, TokenKind};
use crate::ast::{BinaryOperator, LitKind, LiteralExpression, UnaryOperator};
use crate::lex::{ascii_digit, is_ascii_digit};
use crate::lex::lexer::{to_chars, utf8_width};
use crate::parse::grammar::{
    binary_operator, decimal, digit_value, infix_power, integer_value, digits_value, materialize,
    prefix_power, unary_operator, unquoted,
};
use crate::parse::stream::{spells, string_of};
use crate::parse::Parser;
use vstd::prelude::*;

verus! {


/// The binary operator that a token of kind `kind` stands for.
pub fn binop_tok_to_ast(kind: TokenKind) -> (op: Option<BinaryOperator>)
    ensures
        op == binary_operator(kind),
{
    match kind {
        TokenKind::Op { kind: OpKind::Pipe } => Some(BinaryOperator::BitOr),
        TokenKind::Op { kind: OpKind::And } => Some(BinaryOperator::BitAnd),
        TokenKind::Op { kind: OpKind::Caret } => Some(BinaryOperator::BitXor),
        TokenKind::Op { kind: OpKind::ShiftR } => Some(BinaryOperator::BitRight),
        TokenKind::Op { kind: OpKind::ShiftL } => Some(BinaryOperator::BitLeft),
        TokenKind::Op { kind: OpKind::Plus } => Some(BinaryOperator::Add),
        TokenKind::Op { kind: OpKind::Minus } => Some(BinaryOperator::Sub),
        TokenKind::Op { kind: OpKind::Star } => Some(BinaryOperator::Mul),
        TokenKind::Op { kind: OpKind::FSlash } => Some(BinaryOperator::Div),
        TokenKind::Op { kind: OpKind::Percent } => Some(BinaryOperator::Mod),
        TokenKind::PipePipe => Some(BinaryOperator::BoolOr),
        TokenKind::AndAnd => Some(BinaryOperator::BoolAnd),
        TokenKind::EqEq => Some(BinaryOperator::Eq),
        TokenKind::BangEq => Some(BinaryOperator::Ne),
        TokenKind::GtEq => Some(BinaryOperator::Ge),
        TokenKind::LtEq => Some(BinaryOperator::Le),
        TokenKind::Gt => Some(BinaryOperator::Gt),
        TokenKind::Lt => Some(BinaryOperator::Lt),
        TokenKind::PipeGt => Some(BinaryOperator::Pipe),
        _ => None,
    }
}

/// The prefix operator that a token of kind `kind` stands for.
pub fn unop_tok_to_ast(kind: TokenKind) -> (op: Option<UnaryOperator>)
    ensures
        op == unary_operator(kind),
{
    match kind {
        TokenKind::Op { kind: OpKind::Plus } => Some(UnaryOperator::Plus),
        TokenKind::Op { kind: OpKind::Minus } => Some(UnaryOperator::Minus),
        TokenKind::Op { kind: OpKind::Tilde } => Some(UnaryOperator::BitNot),
        TokenKind::Bang => Some(UnaryOperator::BoolNot),
        _ => None,
    }
}

/// How tightly a prefix operator binds what follows it.
pub fn prefix_binding_power(op: UnaryOperator) -> (power: ((), u8))
    ensures
        power.1 == prefix_power(op),
{
    match op {
        UnaryOperator::BoolNot => ((), 5),
        UnaryOperator::BitNot | UnaryOperator::Plus | UnaryOperator::Minus => ((), 25),
    }
}

/// How tightly a binary operator binds to its left and to its right.
pub fn infix_binding_power(op: BinaryOperator) -> (power: (u8, u8))
    ensures
        power == infix_power(op),
{
    match op {
        BinaryOperator::BoolOr => (1, 2),
        BinaryOperator::BoolAnd => (3, 4),
        BinaryOperator::Eq
        | BinaryOperator::Ne
        | BinaryOperator::Ge
        | BinaryOperator::Le
        | BinaryOperator::Gt
        | BinaryOperator::Lt => (7, 8),
        BinaryOperator::Pipe => (9, 10),
        BinaryOperator::Mod => (11, 12),
        BinaryOperator::BitOr => (13, 14),
        BinaryOperator::BitAnd => (15, 16),
        BinaryOperator::BitXor => (17, 18),
        BinaryOperator::BitRight | BinaryOperator::BitLeft => (19, 20),
        BinaryOperator::Add | BinaryOperator::Sub => (21, 22),
        BinaryOperator::Mul | BinaryOperator::Div => (23, 24),
    }
}

/// The number that some of the digits write is no greater than the number
/// that all of them write.
pub proof fn lemma_decimal_prefix(s: Seq<char>, k: int)
    requires
        0 <= k <= s.len(),
    ensures
        decimal(s.subrange(0, k)) <= decimal(s),
    decreases s.len() - k,
{
    if k == s.len() {
        assert(s.subrange(0, k) =~= s);
    } else {
        assert(s.drop_last().subrange(0, k) =~= s.subrange(0, k));
        lemma_decimal_prefix(s.drop_last(), k);
    }
}

/// The integer that the text of `chars` from `start` up to `end` writes.
pub fn integer_of(chars: &Vec<char>, start: usize, end: usize) -> (value: Option<u128>)
    requires
        start <= end <= chars.len(),
    ensures
        value == integer_value(chars@.subrange(start as int, end as int)),
{
    let ghost text = chars@.subrange(start as int, end as int);
    let mut i = start;
    if i < end && chars[i] == '+' {
        i = i + 1;
    }
    let first = i;
    let ghost digits = chars@.subrange(first as int, end as int);
    proof {
        if start < end {
            assert(text[0] == chars@[start as int]);
        }
        if first > start {
            assert(text.drop_first() =~= digits);
        } else {
            assert(text =~= digits);
        }
        assert(integer_value(text) == digits_value(digits));
    }
    if i == end {
        return None;
    }
    let mut value: u128 = 0;
    proof {
        assert(chars@.subrange(first as int, first as int) =~= Seq::<char>::empty());
    }
    while i < end
        invariant
            first <= i <= end <= chars.len(),
            first < end,
            digits == chars@.subrange(first as int, end as int),
            forall|j: int| 0 <= j < i - first ==> ascii_digit(#[trigger] digits[j]),
            value == decimal(chars@.subrange(first as int, i as int)),
            integer_value(chars@.subrange(start as int, end as int)) == digits_value(digits),
        ensures
            i == end,
            forall|j: int| 0 <= j < digits.len() ==> ascii_digit(#[trigger] digits[j]),
            value == decimal(digits),
        decreases end - i,
    {
        let c = chars[i];
        assert(c == digits[i - first]);
        if !is_ascii_digit(c) {
            return None;
        }
        let digit: u128 = (c as u32 - 0x30) as u128;
        let ghost before = chars@.subrange(first as int, i as int);
        let ghost now = chars@.subrange(first as int, i + 1);
        proof {
            assert(now.drop_last() =~= before);
            assert(now.last() == c);
            assert(decimal(now) == decimal(before) * 10 + digit_value(c));
            assert(digits.subrange(0, i + 1 - first) =~= now);
            lemma_decimal_prefix(digits, i + 1 - first);
        }
        let next = match value.checked_mul(10) {
            Some(scaled) => match scaled.checked_add(digit) {
                Some(next) => next,
                None => {
                    return None;
                },
            },
            None => {
                return None;
            },
        };
        value = next;
        i = i + 1;
        proof {
            if i == end {
                assert(now =~= digits);
            }
        }
    }
    Some(value)
}

/// The range between the first and the last character of the text of
/// `chars` from `start` up to `end`, where each of the two takes one byte.
pub fn unquote(chars: &Vec<char>, start: usize, end: usize) -> (inner: Option<(usize, usize)>)
    requires
        start <= end <= chars.len(),
    ensures
        inner is None ==> unquoted(chars@.subrange(start as int, end as int)) is None,
        inner is Some ==> start <= (inner->0).0 <= (inner->0).1 <= end && unquoted(
            chars@.subrange(start as int, end as int),
        ) == Some(chars@.subrange((inner->0).0 as int, (inner->0).1 as int)),
{
    let ghost text = chars@.subrange(start as int, end as int);
    if end - start >= 2 && utf8_width(chars[start]) == 1 && utf8_width(chars[end - 1]) == 1 {
        assert(text.subrange(1, text.len() - 1) =~= chars@.subrange(start + 1, end - 1));
        Some((start + 1, end - 1))
    } else {
        None
    }
}

/// The character at index `i` of `chars`.
fn char_of(chars: &Vec<char>, i: usize) -> (c: char)
    requires
        i < chars.len(),
    ensures
        c == chars@[i as int],
{
    chars[i]
}

/// The value of a literal token of kind `kind` whose text is that of `chars`
/// from `start` up to `end`, where it has one.
pub fn literal_value(kind: LiteralKind, chars: &Vec<char>, start: usize, end: usize) -> (r: Option<
    LiteralExpression,
>)
    requires
        start <= end <= chars.len(),
    ensures
        r is None ==> materialize(kind, chars@.subrange(start as int, end as int)) is None,
        r is Some ==> materialize(kind, chars@.subrange(start as int, end as int)) == Some(
            r->0.model(),
        ),
{
    let ghost text = chars@.subrange(start as int, end as int);
    match kind {
        LiteralKind::Bool => {
            if spells(chars, start, end, "true") {
                let literal = LiteralExpression { kind: LitKind::Bool(true) };
                assert(materialize(kind, text) == Some(literal.model()));
                Some(literal)
            } else if spells(chars, start, end, "false") {
                let literal = LiteralExpression { kind: LitKind::Bool(false) };
                assert(materialize(kind, text) == Some(literal.model()));
                Some(literal)
            } else {
                None
            }
        },
        LiteralKind::Int => match integer_of(chars, start, end) {
            Some(value) => {
                let literal = LiteralExpression { kind: LitKind::Int(value) };
                assert(materialize(kind, text) == Some(literal.model()));
                Some(literal)
            },
            None => None,
        },
        LiteralKind::Float => {
            let literal = LiteralExpression { kind: LitKind::Float(string_of(chars, start, end)) };
            assert(materialize(kind, text) == Some(literal.model()));
            Some(literal)
        },
        LiteralKind::Str { terminated } => match unquote(chars, start, end) {
            Some((from, to)) => {
                let literal = LiteralExpression { kind: LitKind::Str(string_of(chars, from, to)) };
                assert(materialize(kind, text) == Some(literal.model()));
                Some(literal)
            },
            None => None,
        },
        LiteralKind::Char { terminated } => match unquote(chars, start, end) {
            Some((from, to)) => {
                if to - from == 1 {
                    assert(chars@.subrange(from as int, to as int)[0] == chars@[from as int]);
                    let value = char_of(chars, from);
                    let literal = LiteralExpression { kind: LitKind::Char(value) };
                    assert(materialize(kind, text) == Some(literal.model()));
                    Some(literal)
                } else {
                    None
                }
            },
            None => None,
        },
    }
}

impl Parser {
    /// The value of a literal token of kind `kind` with the text `lexeme`.
    pub fn parse_literal(kind: LiteralKind, lexeme: &str) -> (literal: LiteralExpression)
        requires
            materialize(kind, lexeme@) is Some,
        ensures
            Some(literal.model()) == materialize(kind, lexeme@),
    {
        let chars = to_chars(lexeme);
        assert(chars@.subrange(0, chars.len() as int) =~= chars@);
        match literal_value(kind, &chars, 0, chars.len()) {
            Some(literal) => literal,
            None => unreached(),
        }
    }

    /// The value of a literal token of kind `kind` with the text `lexeme`,
    /// where it has one.
    pub fn try_parse_literal(kind: LiteralKind, lexeme: &str) -> (literal: Option<
        LiteralExpression,
    >)
        ensures
            literal is None ==> materialize(kind, lexeme@) is None,
            literal is Some ==> materialize(kind, lexeme@) == Some(literal->0.model()),
    {
        let chars = to_chars(lexeme);
        assert(chars@.subrange(0, chars.len() as int) =~= chars@);
        literal_value(kind, &chars, 0, chars.len())
    }
}

} // verus!
