//! What the parser computes, as mathematics: each production is a function
//! from a token sequence and a position in it to an outcome, which is a value
//! or an error, the number of tokens taken, and the diagnostics recorded on
//! the way.
use crate::ast::token::{LiteralKind, OpKind, Token, TokenKind};
use crate::ast::{
    BinaryOperator, BlockView, ElseView, ExpressionView, FloatKind, IfView, IntKind, LiteralView,
    ParameterView, StatementView, TypeView, UnaryOperator,
};
use crate::lex::ascii_digit;
use crate::lex::lexer::char_width;
use vstd::prelude::*;

verus! {

/// The tokens of a source text with the text that each one covers.
pub struct Lexed {
    pub tokens: Seq<Token>,
    pub texts: Seq<Seq<char>>,
}

impl Lexed {
    /// There is a text for each token, and the end of input stands last and
    /// nowhere else.
    pub open spec fn wf(self) -> bool {
        &&& self.tokens.len() >= 1
        &&& self.texts.len() == self.tokens.len()
        &&& self.tokens.last().kind == TokenKind::EOF
        &&& forall|i: int|
            0 <= i < self.tokens.len() - 1 ==> (#[trigger] self.tokens[i]).kind != TokenKind::EOF
    }

    /// Number of tokens from position `p` on.
    pub open spec fn rest(self, p: nat) -> nat {
        if p < self.tokens.len() {
            (self.tokens.len() - p) as nat
        } else {
            0
        }
    }

    /// The token `n` places after position `p`; past the end, the last token.
    pub open spec fn peek(self, p: nat, n: nat) -> Token {
        if p + n < self.tokens.len() {
            self.tokens[(p + n) as int]
        } else {
            self.tokens.last()
        }
    }

    /// The kind of the token at position `p`.
    pub open spec fn kind(self, p: nat) -> TokenKind {
        self.peek(p, 0).kind
    }

    /// The text of the token at position `p`.
    pub open spec fn text(self, p: nat) -> Seq<char> {
        self.texts[p as int]
    }
}

/// What a `ParseError` stands for.
#[allow(inconsistent_fields)]
pub enum ErrorView {
    ExpectedSingle { expected: TokenKind, found: Token },
    ExpectedAlternatives { expected: Seq<TokenKind>, found: Token },
    ExpectedNode { expected: Seq<char>, found: Token },
    OuterExpression,
}

/// How a production ends: with a value or with the error that stopped it,
/// having taken `used` tokens and recorded `errors` without stopping.
pub struct Outcome<T> {
    pub result: Result<T, ErrorView>,
    pub used: nat,
    pub errors: Seq<ErrorView>,
}

impl<T> Outcome<T> {
    pub open spec fn ok(self) -> bool {
        self.result is Ok
    }

    pub open spec fn value(self) -> T {
        self.result->Ok_0
    }

    pub open spec fn error(self) -> ErrorView {
        self.result->Err_0
    }
}

pub open spec fn done<T>(value: T, used: nat, errors: Seq<ErrorView>) -> Outcome<T> {
    Outcome { result: Ok(value), used, errors }
}

pub open spec fn failed<T>(error: ErrorView, used: nat, errors: Seq<ErrorView>) -> Outcome<T> {
    Outcome { result: Err(error), used, errors }
}

/// The outcome `rest`, reached after `used` tokens and `errors` diagnostics.
pub open spec fn after<T>(used: nat, errors: Seq<ErrorView>, rest: Outcome<T>) -> Outcome<T> {
    Outcome { result: rest.result, used: used + rest.used, errors: errors + rest.errors }
}

/// A failure handed on by a production of another type.
pub open spec fn carry<A, B>(from: Outcome<A>) -> Outcome<B> {
    failed(from.error(), from.used, from.errors)
}

/// Stands where the grammar has no answer: for a position outside the tokens
/// and for a repetition whose entry took no token. On well-formed tokens no
/// production ends in it.
pub open spec fn stuck<T>() -> Outcome<T> {
    failed(ErrorView::OuterExpression, 0, Seq::empty())
}

pub open spec fn no_errors() -> Seq<ErrorView> {
    Seq::empty()
}

/// Takes the token at `p` where it is of kind `kind`. The end of input can be
/// met but not passed.
pub open spec fn expect(c: Lexed, p: nat, kind: TokenKind) -> Outcome<Token> {
    if c.kind(p) == kind {
        done(
            c.peek(p, 0),
            if kind == TokenKind::EOF {
                0
            } else {
                1
            },
            no_errors(),
        )
    } else {
        failed(ErrorView::ExpectedSingle { expected: kind, found: c.peek(p, 0) }, 0, no_errors())
    }
}

/// Takes the identifier at `p` and gives its text.
pub open spec fn name_at(c: Lexed, p: nat) -> Outcome<Seq<char>> {
    if c.kind(p) == TokenKind::Identifier {
        done(c.text(p), 1, no_errors())
    } else {
        failed(
            ErrorView::ExpectedSingle { expected: TokenKind::Identifier, found: c.peek(p, 0) },
            0,
            no_errors(),
        )
    }
}

/// Takes an optional comma and then the closing delimiter `close`.
pub open spec fn closing(c: Lexed, p: nat, close: TokenKind) -> Outcome<()> {
    let comma: nat = if c.kind(p) == TokenKind::Comma {
        1
    } else {
        0
    };
    if c.kind(p + comma) == close {
        done((), comma + 1, no_errors())
    } else {
        failed(
            ErrorView::ExpectedSingle { expected: close, found: c.peek(p + comma, 0) },
            comma,
            no_errors(),
        )
    }
}

/// The type that the name `name` stands for: a primitive, or else a type of
/// the user's.
#[verifier::opaque]
pub open spec fn type_from_name(name: Seq<char>) -> TypeView {
    if name == "bool"@ {
        TypeView::Bool
    } else if name == "str"@ {
        TypeView::Str
    } else if name == "char"@ {
        TypeView::Char
    } else if name == "u8"@ {
        TypeView::Int { sign: false, kind: IntKind::Bit8 }
    } else if name == "u16"@ {
        TypeView::Int { sign: false, kind: IntKind::Bit16 }
    } else if name == "u32"@ {
        TypeView::Int { sign: false, kind: IntKind::Bit32 }
    } else if name == "u64"@ {
        TypeView::Int { sign: false, kind: IntKind::Bit64 }
    } else if name == "i8"@ {
        TypeView::Int { sign: true, kind: IntKind::Bit8 }
    } else if name == "i16"@ {
        TypeView::Int { sign: true, kind: IntKind::Bit16 }
    } else if name == "i32"@ {
        TypeView::Int { sign: true, kind: IntKind::Bit32 }
    } else if name == "i64"@ {
        TypeView::Int { sign: true, kind: IntKind::Bit64 }
    } else if name == "f32"@ {
        TypeView::Float { kind: FloatKind::Bit32 }
    } else if name == "f64"@ {
        TypeView::Float { kind: FloatKind::Bit64 }
    } else if name == "void"@ {
        TypeView::Void
    } else {
        TypeView::UserDefined { name }
    }
}

/// Whether a token of kind `kind` may begin an entry of a list: of a list of
/// types where `types` holds, else of a list of parameters.
pub open spec fn starts_entry(kind: TokenKind, types: bool) -> bool {
    ||| kind == TokenKind::Identifier
    ||| types && (kind == TokenKind::OpenParen || kind == TokenKind::OpenBracket || kind
        == TokenKind::Fn)
}

/// Whether the skipping after a malformed entry stops at a token of kind
/// `kind`: at a comma, at a token that may begin an entry, at the closing
/// delimiter, and at the end of input.
pub open spec fn ends_skip(kind: TokenKind, types: bool, close: TokenKind) -> bool {
    ||| kind == TokenKind::Comma
    ||| kind == close
    ||| kind == TokenKind::EOF
    ||| starts_entry(kind, types)
}

/// Number of tokens from `p` on that the skipping after a malformed entry passes.
pub open spec fn skipped(c: Lexed, p: nat, types: bool, close: TokenKind) -> nat
    decreases c.rest(p),
{
    if p < c.tokens.len() && !ends_skip(c.kind(p), types, close) {
        1 + skipped(c, p + 1, types, close)
    } else {
        0
    }
}

/// The error for a token that can neither begin an entry nor end the list.
pub open spec fn no_entry(separated: bool, close: TokenKind, found: Token) -> ErrorView {
    if separated {
        ErrorView::ExpectedSingle { expected: close, found }
    } else {
        ErrorView::ExpectedAlternatives { expected: seq![TokenKind::Comma, close], found }
    }
}

/// `Type := ID | '(' Type,* ')' | '[' Type ']' | 'fn' '(' Type,* ')' '->' Type`
#[verifier::opaque]
pub open spec fn type_at(c: Lexed, p: nat) -> Outcome<TypeView>
    decreases c.rest(p), 2nat, 0nat,
{
    if p >= c.tokens.len() {
        stuck()
    } else if c.kind(p) == TokenKind::Identifier {
        done(type_from_name(c.text(p)), 1, no_errors())
    } else if c.kind(p) == TokenKind::OpenParen {
        let items = type_args_at(c, p, TokenKind::OpenParen, TokenKind::CloseParen);
        if items.ok() {
            done(TypeView::Tuple(items.value()), items.used, items.errors)
        } else {
            carry(items)
        }
    } else if c.kind(p) == TokenKind::OpenBracket {
        type_list_at(c, p)
    } else if c.kind(p) == TokenKind::Fn {
        type_fn_at(c, p)
    } else {
        failed(
            ErrorView::ExpectedNode { expected: "type"@, found: c.peek(p, 0) },
            0,
            no_errors(),
        )
    }
}

/// A list type, from its `[` on. A missing `]` is recorded and passed over.
#[verifier::opaque]
pub open spec fn type_list_at(c: Lexed, p: nat) -> Outcome<TypeView>
    decreases c.rest(p), 1nat, 0nat,
{
    if p >= c.tokens.len() {
        stuck()
    } else {
        let item = type_at(c, p + 1);
        if !item.ok() {
            after(1, no_errors(), carry(item))
        } else {
            let close = expect(c, p + 1 + item.used, TokenKind::CloseBracket);
            let value = TypeView::List(Box::new(item.value()));
            if close.ok() {
                done(value, 1 + item.used + 1, item.errors)
            } else {
                done(value, 1 + item.used, item.errors.push(close.error()))
            }
        }
    }
}

/// A function type, from its `fn` on.
#[verifier::opaque]
pub open spec fn type_fn_at(c: Lexed, p: nat) -> Outcome<TypeView>
    decreases c.rest(p), 1nat, 0nat,
{
    if p >= c.tokens.len() {
        stuck()
    } else {
        let arguments = type_args_at(c, p + 1, TokenKind::OpenParen, TokenKind::CloseParen);
        if !arguments.ok() {
            after(1, no_errors(), carry(arguments))
        } else {
            let arrow = expect(c, p + 1 + arguments.used, TokenKind::RArrow);
            if !arrow.ok() {
                after(1 + arguments.used, arguments.errors, carry(arrow))
            } else {
                let result = type_at(c, p + 1 + arguments.used + 1);
                if !result.ok() {
                    after(1 + arguments.used + 1, arguments.errors, carry(result))
                } else {
                    done(
                        TypeView::Fn {
                            arguments: arguments.value(),
                            return_type: Box::new(result.value()),
                        },
                        1 + arguments.used + 1 + result.used,
                        arguments.errors + result.errors,
                    )
                }
            }
        }
    }
}

/// A list of types between `open` and `close`, separated by commas, the last
/// of which may be followed by one more comma.
#[verifier::opaque]
pub open spec fn type_args_at(c: Lexed, p: nat, open: TokenKind, close: TokenKind) -> Outcome<
    Seq<TypeView>,
>
    decreases c.rest(p), 1nat, 0nat,
{
    if p >= c.tokens.len() {
        stuck()
    } else if c.kind(p) != open {
        carry(expect(c, p, open))
    } else {
        let items = type_args_rest(c, p + 1, close, true, Seq::empty());
        if !items.ok() {
            after(1, no_errors(), items)
        } else {
            let end = closing(c, p + 1 + items.used, close);
            if end.ok() {
                done(items.value(), 1 + items.used + end.used, items.errors)
            } else {
                after(1 + items.used, items.errors, carry(end))
            }
        }
    }
}

/// The types of a list from position `p` on, after the types `acc`. A
/// malformed entry is recorded and skipped; the list is given up only where
/// the next token can neither begin an entry nor end the list.
#[verifier::opaque]
pub open spec fn type_args_rest(
    c: Lexed,
    p: nat,
    close: TokenKind,
    first: bool,
    acc: Seq<TypeView>,
) -> Outcome<Seq<TypeView>>
    decreases c.rest(p), 3nat, (if first {
        1nat
    } else {
        0nat
    }),
{
    if p >= c.tokens.len() {
        stuck()
    } else if c.kind(p) == close || (c.peek(p, 1).kind == close && !first) {
        done(acc, 0, no_errors())
    } else {
        let comma = expect(c, p, TokenKind::Comma);
        let separated = first || comma.ok();
        let here = if first {
            p
        } else {
            p + comma.used
        };
        let noted = if separated {
            no_errors()
        } else {
            seq![comma.error()]
        };
        let found = c.peek(here, 0);
        if !(found.kind == TokenKind::Comma || starts_entry(found.kind, true)) {
            failed(no_entry(separated, close, found), (here - p) as nat, no_errors())
        } else {
            let entry = type_at(c, here);
            if entry.ok() {
                if entry.used == 0 {
                    stuck()
                } else {
                    after(
                        (here - p) as nat + entry.used,
                        noted + entry.errors,
                        type_args_rest(c, here + entry.used, close, false, acc.push(entry.value())),
                    )
                }
            } else {
                let onward = here + entry.used + skipped(c, here + entry.used, true, close);
                if !(c.kind(onward) == TokenKind::Comma || c.kind(onward) == close || starts_entry(
                    c.kind(onward),
                    true,
                )) {
                    failed(entry.error(), (onward - p) as nat, noted + entry.errors)
                } else if onward == p && !first {
                    stuck()
                } else {
                    after(
                        (onward - p) as nat,
                        (noted + entry.errors).push(entry.error()),
                        type_args_rest(c, onward, close, false, acc),
                    )
                }
            }
        }
    }
}

/// `ID ':' Type`
#[verifier::opaque]
pub open spec fn param_at(c: Lexed, p: nat) -> Outcome<ParameterView> {
    let name = name_at(c, p);
    if !name.ok() {
        carry(name)
    } else {
        let colon = expect(c, p + 1, TokenKind::Colon);
        if !colon.ok() {
            after(1, no_errors(), carry(colon))
        } else {
            let param_type = type_at(c, p + 2);
            if !param_type.ok() {
                after(2, no_errors(), carry(param_type))
            } else {
                done(
                    ParameterView { name: name.value(), param_type: param_type.value() },
                    2 + param_type.used,
                    param_type.errors,
                )
            }
        }
    }
}

/// A parameter that begins with an identifier takes at least that identifier.
pub proof fn lemma_param_used(c: Lexed, p: nat)
    ensures
        c.kind(p) == TokenKind::Identifier ==> param_at(c, p).used >= 1,
        param_at(c, p).ok() ==> param_at(c, p).used >= 1,
{
    reveal(param_at);
}

/// `Params := (ID ':' Type (',' ID ':' Type)* (',')? )?` between `open` and `close`.
#[verifier::opaque]
pub open spec fn params_at(c: Lexed, p: nat, open: TokenKind, close: TokenKind) -> Outcome<
    Seq<ParameterView>,
> {
    if c.kind(p) != open {
        carry(expect(c, p, open))
    } else {
        let items = params_rest(c, p + 1, close, true, Seq::empty());
        if !items.ok() {
            after(1, no_errors(), items)
        } else {
            let end = closing(c, p + 1 + items.used, close);
            if end.ok() {
                done(items.value(), 1 + items.used + end.used, items.errors)
            } else {
                after(1 + items.used, items.errors, carry(end))
            }
        }
    }
}

/// The parameters of a list from position `p` on, after the parameters `acc`.
/// A malformed entry is recorded and skipped; the list is given up only where
/// the next token can neither begin an entry nor end the list.
#[verifier::opaque]
pub open spec fn params_rest(
    c: Lexed,
    p: nat,
    close: TokenKind,
    first: bool,
    acc: Seq<ParameterView>,
) -> Outcome<Seq<ParameterView>>
    decreases c.rest(p), (if first {
        1nat
    } else {
        0nat
    }),
{
    if p >= c.tokens.len() {
        stuck()
    } else if c.kind(p) == close || c.peek(p, 1).kind == close {
        done(acc, 0, no_errors())
    } else {
        let comma = expect(c, p, TokenKind::Comma);
        let separated = first || comma.ok();
        let here = if first {
            p
        } else {
            p + comma.used
        };
        let noted = if separated {
            no_errors()
        } else {
            seq![comma.error()]
        };
        let found = c.peek(here, 0);
        if !(found.kind == TokenKind::Comma || starts_entry(found.kind, false)) {
            failed(no_entry(separated, close, found), (here - p) as nat, no_errors())
        } else {
            let entry = param_at(c, here);
            proof {
                lemma_param_used(c, here);
            }
            if entry.ok() {
                after(
                    (here - p) as nat + entry.used,
                    noted + entry.errors,
                    params_rest(c, here + entry.used, close, false, acc.push(entry.value())),
                )
            } else {
                let onward = here + entry.used + skipped(c, here + entry.used, false, close);
                if !(c.kind(onward) == TokenKind::Comma || c.kind(onward) == close || starts_entry(
                    c.kind(onward),
                    false,
                )) {
                    failed(entry.error(), (onward - p) as nat, noted + entry.errors)
                } else {
                    after(
                        (onward - p) as nat,
                        (noted + entry.errors).push(entry.error()),
                        params_rest(c, onward, close, false, acc),
                    )
                }
            }
        }
    }
}

/// The value of the decimal digit `c`; of any other character, zero.
pub open spec fn digit_value(c: char) -> nat {
    if ascii_digit(c) {
        (c as u32 - 0x30) as nat
    } else {
        0
    }
}

/// The number that the digits `s` write in base ten.
pub open spec fn decimal(s: Seq<char>) -> nat
    decreases s.len(),
{
    if s.len() == 0 {
        0
    } else {
        decimal(s.drop_last()) * 10 + digit_value(s.last())
    }
}

/// The integer that the digits `digits` write, where there is at least one
/// and their value fits in 128 bits.
pub open spec fn digits_value(digits: Seq<char>) -> Option<u128> {
    if digits.len() > 0 && (forall|i: int|
        0 <= i < digits.len() ==> ascii_digit(#[trigger] digits[i])) && decimal(digits)
        <= u128::MAX {
        Some(decimal(digits) as u128)
    } else {
        None
    }
}

/// The integer that `text` writes: decimal digits after an optional `+`.
pub open spec fn integer_value(text: Seq<char>) -> Option<u128> {
    if text.len() > 0 && text[0] == '+' {
        digits_value(text.drop_first())
    } else {
        digits_value(text)
    }
}

/// The text between the first and the last character of `text`, where each
/// of the two takes one byte.
pub open spec fn unquoted(text: Seq<char>) -> Option<Seq<char>> {
    if text.len() >= 2 && char_width(text[0]) == 1 && char_width(text.last()) == 1 {
        Some(text.subrange(1, text.len() - 1))
    } else {
        None
    }
}

/// The value of a literal token of kind `kind` with the text `text`, where it
/// has one. A float keeps its text; a string or character loses its first
/// and last character and keeps what is between as it is written.
pub open spec fn materialize(kind: LiteralKind, text: Seq<char>) -> Option<LiteralView> {
    match kind {
        LiteralKind::Bool => if text == "true"@ {
            Some(LiteralView::Bool(true))
        } else if text == "false"@ {
            Some(LiteralView::Bool(false))
        } else {
            None
        },
        LiteralKind::Int => match integer_value(text) {
            Some(value) => Some(LiteralView::Int(value)),
            None => None,
        },
        LiteralKind::Float => Some(LiteralView::Float(text)),
        LiteralKind::Str { terminated } => match unquoted(text) {
            Some(inner) => Some(LiteralView::Str(inner)),
            None => None,
        },
        LiteralKind::Char { terminated } => match unquoted(text) {
            Some(inner) => if inner.len() == 1 {
                Some(LiteralView::Char(inner[0]))
            } else {
                None
            },
            None => None,
        },
    }
}

/// The binary operator that a token of kind `kind` stands for.
pub open spec fn binary_operator(kind: TokenKind) -> Option<BinaryOperator> {
    match kind {
        TokenKind::Op { kind: OpKind::Pipe } => Some(BinaryOperator::BitOr),
        TokenKind::Op { kind: OpKind::And } => Some(BinaryOperator::BitAnd),
        TokenKind::Op { kind: OpKind::Caret } => Some(BinaryOperator::BitXor),
        TokenKind::Op { kind: OpKind::ShiftR } => Some(BinaryOperator::BitRight),
        TokenKind::Op { kind: OpKind::ShiftL } => Some(BinaryOperator::BitLeft),
        TokenKind::Op { kind: OpKind::Plus } => Some(BinaryOperator::Add),
        TokenKind::Op { kind: OpKind::Minus } => Some(BinaryOperator::Sub),
        TokenKind::Op { kind: OpKind::Star } => Some(BinaryOperator::Mul),
        TokenKind::Op { kind: OpKind::FSlash } => Some(BinaryOperator::Div),
        TokenKind::Op { kind: OpKind::Percent } => Some(BinaryOperator::Mod),
        TokenKind::PipePipe => Some(BinaryOperator::BoolOr),
        TokenKind::AndAnd => Some(BinaryOperator::BoolAnd),
        TokenKind::EqEq => Some(BinaryOperator::Eq),
        TokenKind::BangEq => Some(BinaryOperator::Ne),
        TokenKind::GtEq => Some(BinaryOperator::Ge),
        TokenKind::LtEq => Some(BinaryOperator::Le),
        TokenKind::Gt => Some(BinaryOperator::Gt),
        TokenKind::Lt => Some(BinaryOperator::Lt),
        TokenKind::PipeGt => Some(BinaryOperator::Pipe),
        _ => None,
    }
}

/// The prefix operator that a token of kind `kind` stands for.
pub open spec fn unary_operator(kind: TokenKind) -> Option<UnaryOperator> {
    match kind {
        TokenKind::Op { kind: OpKind::Plus } => Some(UnaryOperator::Plus),
        TokenKind::Op { kind: OpKind::Minus } => Some(UnaryOperator::Minus),
        TokenKind::Op { kind: OpKind::Tilde } => Some(UnaryOperator::BitNot),
        TokenKind::Bang => Some(UnaryOperator::BoolNot),
        _ => None,
    }
}

/// How tightly a prefix operator binds what follows it.
pub open spec fn prefix_power(op: UnaryOperator) -> u8 {
    match op {
        UnaryOperator::BoolNot => 5,
        UnaryOperator::BitNot => 25,
        UnaryOperator::Plus => 25,
        UnaryOperator::Minus => 25,
    }
}

/// How tightly a binary operator binds to its left and to its right. The
/// right power is the greater one, so operators of one level group to the left.
pub open spec fn infix_power(op: BinaryOperator) -> (u8, u8) {
    match op {
        BinaryOperator::BoolOr => (1, 2),
        BinaryOperator::BoolAnd => (3, 4),
        BinaryOperator::Eq => (7, 8),
        BinaryOperator::Ne => (7, 8),
        BinaryOperator::Ge => (7, 8),
        BinaryOperator::Le => (7, 8),
        BinaryOperator::Gt => (7, 8),
        BinaryOperator::Lt => (7, 8),
        BinaryOperator::Pipe => (9, 10),
        BinaryOperator::Mod => (11, 12),
        BinaryOperator::BitOr => (13, 14),
        BinaryOperator::BitAnd => (15, 16),
        BinaryOperator::BitXor => (17, 18),
        BinaryOperator::BitRight => (19, 20),
        BinaryOperator::BitLeft => (19, 20),
        BinaryOperator::Add => (21, 22),
        BinaryOperator::Sub => (21, 22),
        BinaryOperator::Mul => (23, 24),
        BinaryOperator::Div => (23, 24),
    }
}

/// The kinds of token that begin a prefix operation.
pub open spec fn prefix_operators() -> Seq<TokenKind> {
    seq![
        TokenKind::Bang,
        TokenKind::Op { kind: OpKind::Tilde },
        TokenKind::Op { kind: OpKind::Plus },
        TokenKind::Op { kind: OpKind::Minus },
    ]
}

/// Whether a statement is an expression without its `;`.
pub open spec fn unterminated(statement: StatementView) -> bool {
    match statement {
        StatementView::Expression { expr, end_token } => end_token.kind != TokenKind::Semi,
        _ => false,
    }
}

/// The diagnostic for a statement that is an expression without its `;`,
/// and for any other statement none.
pub open spec fn missing_semicolon(statement: StatementView) -> Seq<ErrorView> {
    match statement {
        StatementView::Expression { expr, end_token } => if end_token.kind != TokenKind::Semi {
            seq![ErrorView::ExpectedSingle { expected: TokenKind::Semi, found: end_token }]
        } else {
            Seq::empty()
        },
        _ => Seq::empty(),
    }
}

/// For each expression among `statements` that lacks its `;`, in order, the
/// diagnostic that says so.
pub open spec fn missing_semicolons(statements: Seq<StatementView>) -> Seq<ErrorView>
    decreases statements.len(),
{
    if statements.len() == 0 {
        Seq::empty()
    } else {
        missing_semicolons(statements.drop_last()) + missing_semicolon(statements.last())
    }
}

/// The block that the statements `statements` make: a last expression
/// without `;` leaves the statements and becomes the value of the block.
pub open spec fn block_of(statements: Seq<StatementView>) -> BlockView {
    if statements.len() > 0 && unterminated(statements.last()) {
        BlockView {
            statements: statements.drop_last(),
            expression: match statements.last() {
                StatementView::Expression { expr, end_token } => Some(expr),
                _ => None,
            },
        }
    } else {
        BlockView { statements, expression: None }
    }
}

/// A block has a value exactly where its last statement is an expression
/// without `;`, and that statement is then no longer among its statements.
pub proof fn lemma_block_of(statements: Seq<StatementView>)
    ensures
        block_of(statements).expression is Some <==> statements.len() > 0 && unterminated(
            statements.last(),
        ),
        block_of(statements).expression is Some ==> block_of(statements).statements
            == statements.drop_last(),
        block_of(statements).expression is Some ==> (statements.last()
            matches StatementView::Expression { expr, .. } && block_of(statements).expression
            == Some(expr)),
        block_of(statements).expression is None ==> block_of(statements).statements
            == statements,
{
}

/// The diagnostics of a block for the expressions that lack their `;`: every
/// statement but the last is held to it.
pub open spec fn block_errors(statements: Seq<StatementView>) -> Seq<ErrorView> {
    if statements.len() > 0 {
        missing_semicolons(statements.drop_last())
    } else {
        Seq::empty()
    }
}

/// An expression whose operators bind at least as tightly as `min_bp`: a
/// prefix term, and then every binary operation that may follow it.
#[verifier::opaque]
pub open spec fn expr_at(c: Lexed, p: nat, min_bp: u8) -> Outcome<ExpressionView>
    decreases c.rest(p), 6nat, 0nat,
{
    let head = prefix_at(c, p);
    if !head.ok() {
        head
    } else {
        after(head.used, head.errors, infix_at(c, p + head.used, min_bp, head.value()))
    }
}

/// A prefix term: a literal, an identifier, a parenthesized expression or
/// tuple, a list, a block, an `if`, a closure, or a prefix operation.
#[verifier::opaque]
pub open spec fn prefix_at(c: Lexed, p: nat) -> Outcome<ExpressionView>
    decreases c.rest(p), 5nat, 0nat,
{
    if p >= c.tokens.len() {
        stuck()
    } else {
        let token = c.peek(p, 0);
        match token.kind {
            TokenKind::Literal { kind } => match materialize(kind, c.text(p)) {
                Some(value) => done(ExpressionView::Literal(value), 1, no_errors()),
                None => failed(
                    ErrorView::ExpectedNode { expected: "literal"@, found: token },
                    0,
                    no_errors(),
                ),
            },
            TokenKind::BSlash => closure_at(c, p),
            TokenKind::If => {
                let item = if_at(c, p);
                if item.ok() {
                    done(ExpressionView::If(Box::new(item.value())), item.used, item.errors)
                } else {
                    carry(item)
                }
            },
            TokenKind::OpenParen => paren_at(c, p),
            TokenKind::OpenBracket => list_at(c, p),
            TokenKind::OpenBrace => {
                let block = block_at(c, p);
                if block.ok() {
                    done(ExpressionView::Block(Box::new(block.value())), block.used, block.errors)
                } else {
                    carry(block)
                }
            },
            TokenKind::Identifier => done(
                ExpressionView::Identifier { name: c.text(p) },
                1,
                no_errors(),
            ),
            TokenKind::Bang | TokenKind::Op { .. } => match unary_operator(token.kind) {
                None => failed(
                    ErrorView::ExpectedAlternatives { expected: prefix_operators(), found: token },
                    1,
                    no_errors(),
                ),
                Some(op) => {
                    let rhs = expr_at(c, p + 1, prefix_power(op));
                    if rhs.ok() {
                        done(
                            ExpressionView::Unary { rhs: Box::new(rhs.value()), op },
                            1 + rhs.used,
                            rhs.errors,
                        )
                    } else {
                        after(1, no_errors(), rhs)
                    }
                },
            },
            _ => failed(
                ErrorView::ExpectedNode { expected: "expression"@, found: token },
                0,
                no_errors(),
            ),
        }
    }
}

/// The binary operations that follow the expression `lhs` from position `p`
/// on, as far as their operators bind at least as tightly as `min_bp`. An
/// operator whose right side fails is not taken.
#[verifier::opaque]
pub open spec fn infix_at(c: Lexed, p: nat, min_bp: u8, lhs: ExpressionView) -> Outcome<
    ExpressionView,
>
    decreases c.rest(p), 5nat, 0nat,
{
    if p >= c.tokens.len() {
        stuck()
    } else {
        match binary_operator(c.kind(p)) {
            None => done(lhs, 0, no_errors()),
            Some(op) => if infix_power(op).0 < min_bp {
                done(lhs, 0, no_errors())
            } else {
                let rhs = expr_at(c, p + 1, infix_power(op).1);
                if !rhs.ok() {
                    failed(rhs.error(), 0, rhs.errors)
                } else {
                    after(
                        1 + rhs.used,
                        rhs.errors,
                        infix_at(
                            c,
                            p + 1 + rhs.used,
                            min_bp,
                            ExpressionView::Binary {
                                lhs: Box::new(lhs),
                                rhs: Box::new(rhs.value()),
                                op,
                            },
                        ),
                    )
                }
            },
        }
    }
}

/// From a `(` on: an expression in parentheses, which stands for itself, or,
/// where a comma follows the first expression, a tuple.
#[verifier::opaque]
pub open spec fn paren_at(c: Lexed, p: nat) -> Outcome<ExpressionView>
    decreases c.rest(p), 4nat, 0nat,
{
    if p >= c.tokens.len() {
        stuck()
    } else {
        let inner = expr_at(c, p + 1, 0);
        if !inner.ok() {
            after(1, no_errors(), inner)
        } else if c.kind(p + 1 + inner.used) == TokenKind::Comma {
            let items = elements_rest(
                c,
                p + 1 + inner.used + 1,
                TokenKind::CloseParen,
                true,
                seq![inner.value()],
            );
            if !items.ok() {
                after(1 + inner.used + 1, inner.errors, carry(items))
            } else {
                let end = closing(c, p + 1 + inner.used + 1 + items.used, TokenKind::CloseParen);
                if end.ok() {
                    done(
                        ExpressionView::Literal(LiteralView::Tuple(items.value())),
                        1 + inner.used + 1 + items.used + end.used,
                        inner.errors + items.errors,
                    )
                } else {
                    after(
                        1 + inner.used + 1 + items.used,
                        inner.errors + items.errors,
                        carry(end),
                    )
                }
            }
        } else {
            let end = expect(c, p + 1 + inner.used, TokenKind::CloseParen);
            if end.ok() {
                done(inner.value(), 1 + inner.used + 1, inner.errors)
            } else {
                after(1 + inner.used, inner.errors, carry(end))
            }
        }
    }
}

/// A list literal, from its `[` on.
#[verifier::opaque]
pub open spec fn list_at(c: Lexed, p: nat) -> Outcome<ExpressionView>
    decreases c.rest(p), 4nat, 0nat,
{
    if p >= c.tokens.len() {
        stuck()
    } else {
        let items = elements_rest(c, p + 1, TokenKind::CloseBracket, true, Seq::empty());
        if !items.ok() {
            after(1, no_errors(), carry(items))
        } else {
            let end = closing(c, p + 1 + items.used, TokenKind::CloseBracket);
            if end.ok() {
                done(
                    ExpressionView::Literal(LiteralView::List(items.value())),
                    1 + items.used + end.used,
                    items.errors,
                )
            } else {
                after(1 + items.used, items.errors, carry(end))
            }
        }
    }
}

/// The expressions of a tuple or list from position `p` on, after the
/// expressions `acc`, up to where the closing delimiter stands. A missing
/// comma is recorded. An expression that fails ends a tuple with its error;
/// in a list the error is recorded and the list ends there.
#[verifier::opaque]
pub open spec fn elements_rest(
    c: Lexed,
    p: nat,
    close: TokenKind,
    first: bool,
    acc: Seq<ExpressionView>,
) -> Outcome<Seq<ExpressionView>>
    decreases c.rest(p), 9nat, (if first {
        1nat
    } else {
        0nat
    }),
{
    if p >= c.tokens.len() {
        stuck()
    } else if c.kind(p) == close || (c.peek(p, 1).kind == close && !first) {
        done(acc, 0, no_errors())
    } else {
        let comma = expect(c, p, TokenKind::Comma);
        let here = if first {
            p
        } else {
            p + comma.used
        };
        let noted = if first || comma.ok() {
            no_errors()
        } else {
            seq![comma.error()]
        };
        let item = expr_at(c, here, 0);
        if !item.ok() {
            if close == TokenKind::CloseParen {
                after((here - p) as nat, noted, carry(item))
            } else {
                done(acc, (here - p) as nat + item.used, (noted + item.errors).push(item.error()))
            }
        } else if item.used == 0 {
            stuck()
        } else {
            after(
                (here - p) as nat + item.used,
                noted + item.errors,
                elements_rest(c, here + item.used, close, false, acc.push(item.value())),
            )
        }
    }
}

/// `\ '(' Params ')' '->' Type Block`, from the `\` on.
#[verifier::opaque]
pub open spec fn closure_at(c: Lexed, p: nat) -> Outcome<ExpressionView>
    decreases c.rest(p), 4nat, 0nat,
{
    if p >= c.tokens.len() {
        stuck()
    } else {
        let arguments = params_at(c, p + 1, TokenKind::OpenParen, TokenKind::CloseParen);
        if !arguments.ok() {
            after(1, no_errors(), carry(arguments))
        } else {
            let arrow = expect(c, p + 1 + arguments.used, TokenKind::RArrow);
            if !arrow.ok() {
                after(1 + arguments.used, arguments.errors, carry(arrow))
            } else {
                let return_type = type_at(c, p + 1 + arguments.used + 1);
                if !return_type.ok() {
                    after(1 + arguments.used + 1, arguments.errors, carry(return_type))
                } else {
                    let block = block_at(c, p + 1 + arguments.used + 1 + return_type.used);
                    if !block.ok() {
                        after(
                            1 + arguments.used + 1 + return_type.used,
                            arguments.errors + return_type.errors,
                            carry(block),
                        )
                    } else {
                        done(
                            ExpressionView::Closure {
                                arguments: arguments.value(),
                                block: Box::new(block.value()),
                                return_type: return_type.value(),
                            },
                            1 + arguments.used + 1 + return_type.used + block.used,
                            arguments.errors + return_type.errors + block.errors,
                        )
                    }
                }
            }
        }
    }
}

/// `if Expression Block (else (if-chain | Block))?`, from the `if` on.
#[verifier::opaque]
pub open spec fn if_at(c: Lexed, p: nat) -> Outcome<IfView>
    decreases c.rest(p), 4nat, 0nat,
{
    if p >= c.tokens.len() {
        stuck()
    } else {
        let condition = expr_at(c, p + 1, 0);
        if !condition.ok() {
            after(1, no_errors(), carry(condition))
        } else {
            let body = block_at(c, p + 1 + condition.used);
            if !body.ok() {
                after(1 + condition.used, condition.errors, carry(body))
            } else {
                let q = p + 1 + condition.used + body.used;
                let used = 1 + condition.used + body.used;
                let errors = condition.errors + body.errors;
                if c.kind(q) != TokenKind::Else {
                    done(
                        IfView {
                            condition: condition.value(),
                            body: body.value(),
                            else_body: None,
                        },
                        used,
                        errors,
                    )
                } else if c.kind(q + 1) == TokenKind::If {
                    let other = if_at(c, q + 1);
                    if !other.ok() {
                        after(used + 1, errors, carry(other))
                    } else {
                        done(
                            IfView {
                                condition: condition.value(),
                                body: body.value(),
                                else_body: Some(Box::new(ElseView::ElseIf(other.value()))),
                            },
                            used + 1 + other.used,
                            errors + other.errors,
                        )
                    }
                } else {
                    let other = block_at(c, q + 1);
                    if !other.ok() {
                        after(used + 1, errors, carry(other))
                    } else {
                        done(
                            IfView {
                                condition: condition.value(),
                                body: body.value(),
                                else_body: Some(Box::new(ElseView::Else(other.value()))),
                            },
                            used + 1 + other.used,
                            errors + other.errors,
                        )
                    }
                }
            }
        }
    }
}

/// `'{' Statement* '}'`. A statement that fails is recorded and ends the
/// statements; every expression but the last needs its `;`, and a last
/// expression without it becomes the value of the block.
#[verifier::opaque]
pub open spec fn block_at(c: Lexed, p: nat) -> Outcome<BlockView>
    decreases c.rest(p), 4nat, 0nat,
{
    if p >= c.tokens.len() {
        stuck()
    } else if c.kind(p) != TokenKind::OpenBrace {
        carry(expect(c, p, TokenKind::OpenBrace))
    } else {
        let body = statements_rest(c, p + 1, Seq::empty());
        if !body.ok() {
            after(1, no_errors(), carry(body))
        } else {
            let end = expect(c, p + 1 + body.used, TokenKind::CloseBrace);
            if !end.ok() {
                after(1 + body.used, body.errors, carry(end))
            } else {
                done(
                    block_of(body.value()),
                    1 + body.used + 1,
                    body.errors + block_errors(body.value()),
                )
            }
        }
    }
}

/// The statements of a block from position `p` on, after the statements
/// `acc`, up to the `}`, the end of input, or a statement that fails.
#[verifier::opaque]
pub open spec fn statements_rest(c: Lexed, p: nat, acc: Seq<StatementView>) -> Outcome<
    Seq<StatementView>,
>
    decreases c.rest(p), 9nat, 0nat,
{
    if p >= c.tokens.len() {
        stuck()
    } else if c.kind(p) == TokenKind::CloseBrace {
        done(acc, 0, no_errors())
    } else {
        let item = statement_at(c, p);
        if !item.ok() {
            done(acc, item.used, item.errors.push(item.error()))
        } else if item.value() is EOF {
            done(acc, item.used, item.errors)
        } else if item.used == 0 {
            stuck()
        } else {
            after(
                item.used,
                item.errors,
                statements_rest(c, p + item.used, acc.push(item.value())),
            )
        }
    }
}

/// `Statement := FunctionDecl | StructDecl | EnumDecl | LetDecl | ExprStmt`,
/// or the mark of the end of input.
#[verifier::opaque]
pub open spec fn statement_at(c: Lexed, p: nat) -> Outcome<StatementView>
    decreases c.rest(p), 8nat, 0nat,
{
    match c.kind(p) {
        TokenKind::Fn => function_at(c, p),
        TokenKind::Struct => struct_at(c, p),
        TokenKind::Enum => enum_at(c, p),
        TokenKind::Let => let_at(c, p),
        TokenKind::EOF => done(StatementView::EOF, 0, no_errors()),
        _ => {
            let expr = expr_at(c, p, 0);
            if !expr.ok() {
                carry(expr)
            } else {
                let end_token = c.peek(p + expr.used, 0);
                done(
                    StatementView::Expression { expr: expr.value(), end_token },
                    expr.used + if end_token.kind == TokenKind::Semi {
                        1nat
                    } else {
                        0nat
                    },
                    expr.errors,
                )
            }
        },
    }
}

/// `FunctionDecl := 'fn' ID '(' Params ')' '->' Type Block`
#[verifier::opaque]
pub open spec fn function_at(c: Lexed, p: nat) -> Outcome<StatementView>
    decreases c.rest(p), 7nat, 0nat,
{
    if p >= c.tokens.len() {
        stuck()
    } else {
        let name = name_at(c, p + 1);
        if !name.ok() {
            after(1, no_errors(), carry(name))
        } else {
            let arguments = params_at(c, p + 2, TokenKind::OpenParen, TokenKind::CloseParen);
            if !arguments.ok() {
                after(2, no_errors(), carry(arguments))
            } else {
                let arrow = expect(c, p + 2 + arguments.used, TokenKind::RArrow);
                if !arrow.ok() {
                    after(2 + arguments.used, arguments.errors, carry(arrow))
                } else {
                    let return_type = type_at(c, p + 2 + arguments.used + 1);
                    if !return_type.ok() {
                        after(2 + arguments.used + 1, arguments.errors, carry(return_type))
                    } else {
                        let block = block_at(c, p + 2 + arguments.used + 1 + return_type.used);
                        if !block.ok() {
                            after(
                                2 + arguments.used + 1 + return_type.used,
                                arguments.errors + return_type.errors,
                                carry(block),
                            )
                        } else {
                            done(
                                StatementView::Function {
                                    name: name.value(),
                                    arguments: arguments.value(),
                                    return_type: return_type.value(),
                                    block: block.value(),
                                },
                                2 + arguments.used + 1 + return_type.used + block.used,
                                arguments.errors + return_type.errors + block.errors,
                            )
                        }
                    }
                }
            }
        }
    }
}

/// `LetDecl := 'let' ID '=' Expression ';'`
#[verifier::opaque]
pub open spec fn let_at(c: Lexed, p: nat) -> Outcome<StatementView>
    decreases c.rest(p), 7nat, 0nat,
{
    if p >= c.tokens.len() {
        stuck()
    } else {
        let name = name_at(c, p + 1);
        if !name.ok() {
            after(1, no_errors(), carry(name))
        } else {
            let equals = expect(c, p + 2, TokenKind::Eq);
            if !equals.ok() {
                after(2, no_errors(), carry(equals))
            } else {
                let value = expr_at(c, p + 3, 0);
                if !value.ok() {
                    after(3, no_errors(), carry(value))
                } else {
                    let semi = expect(c, p + 3 + value.used, TokenKind::Semi);
                    if !semi.ok() {
                        after(3 + value.used, value.errors, carry(semi))
                    } else {
                        done(
                            StatementView::Let { name: name.value(), value: value.value() },
                            3 + value.used + 1,
                            value.errors,
                        )
                    }
                }
            }
        }
    }
}

/// `StructDecl := 'struct' ID '{' Params '}'`
#[verifier::opaque]
pub open spec fn struct_at(c: Lexed, p: nat) -> Outcome<StatementView> {
    let name = name_at(c, p + 1);
    if !name.ok() {
        after(1, no_errors(), carry(name))
    } else {
        let fields = params_at(c, p + 2, TokenKind::OpenBrace, TokenKind::CloseBrace);
        if !fields.ok() {
            after(2, no_errors(), carry(fields))
        } else {
            done(
                StatementView::Struct { name: name.value(), fields: fields.value() },
                2 + fields.used,
                fields.errors,
            )
        }
    }
}

/// `EnumDecl := 'enum' ID '{' (ID ',')* ID? '}'`
#[verifier::opaque]
pub open spec fn enum_at(c: Lexed, p: nat) -> Outcome<StatementView> {
    let name = name_at(c, p + 1);
    if !name.ok() {
        after(1, no_errors(), carry(name))
    } else {
        let open = expect(c, p + 2, TokenKind::OpenBrace);
        if !open.ok() {
            after(2, no_errors(), carry(open))
        } else {
            let variants = variants_rest(c, p + 3, Seq::empty());
            if !variants.ok() {
                after(3, no_errors(), carry(variants))
            } else {
                done(
                    StatementView::Enum { name: name.value(), variants: variants.value() },
                    3 + variants.used,
                    variants.errors,
                )
            }
        }
    }
}

/// The variants of an enum from position `p` on, after the variants `acc`,
/// with the `}` that ends them. Nothing inside an enum is skipped.
#[verifier::opaque]
pub open spec fn variants_rest(c: Lexed, p: nat, acc: Seq<Seq<char>>) -> Outcome<Seq<Seq<char>>>
    decreases c.rest(p),
{
    if p >= c.tokens.len() {
        stuck()
    } else if c.kind(p) == TokenKind::CloseBrace {
        done(acc, 1, no_errors())
    } else if c.kind(p) != TokenKind::Identifier {
        failed(
            ErrorView::ExpectedAlternatives {
                expected: seq![TokenKind::Identifier, TokenKind::CloseBrace],
                found: c.peek(p, 0),
            },
            0,
            no_errors(),
        )
    } else if c.kind(p + 1) == TokenKind::Comma {
        after(2, no_errors(), variants_rest(c, p + 2, acc.push(c.text(p))))
    } else if c.kind(p + 1) == TokenKind::CloseBrace {
        done(acc.push(c.text(p)), 2, no_errors())
    } else {
        failed(
            ErrorView::ExpectedAlternatives {
                expected: seq![TokenKind::Comma, TokenKind::CloseBrace],
                found: c.peek(p + 1, 0),
            },
            1,
            no_errors(),
        )
    }
}

/// `Program := Statement* EOF`: the statements from position `p` on, after
/// the statements `acc`. A statement that fails is recorded and ends the
/// program.
#[verifier::opaque]
pub open spec fn program_rest(c: Lexed, p: nat, acc: Seq<StatementView>) -> Outcome<
    Seq<StatementView>,
>
    decreases c.rest(p),
{
    let item = statement_at(c, p);
    if p >= c.tokens.len() {
        stuck()
    } else if !item.ok() {
        done(acc, item.used, item.errors.push(item.error()))
    } else if item.value() is EOF {
        done(acc, item.used, item.errors)
    } else if item.used == 0 {
        stuck()
    } else {
        after(item.used, item.errors, program_rest(c, p + item.used, acc.push(item.value())))
    }
}

/// For each expression among the top-level statements that lacks its `;`,
/// in order, the diagnostic that says so: a program has no value.
pub open spec fn outer_errors(statements: Seq<StatementView>) -> Seq<ErrorView>
    decreases statements.len(),
{
    if statements.len() == 0 {
        Seq::empty()
    } else if unterminated(statements.last()) {
        outer_errors(statements.drop_last()).push(ErrorView::OuterExpression)
    } else {
        outer_errors(statements.drop_last())
    }
}

/// The statements and the diagnostics that parsing the tokens `c` gives.
pub open spec fn program(c: Lexed) -> (Seq<StatementView>, Seq<ErrorView>) {
    let body = program_rest(c, 0, Seq::empty());
    let statements = if body.ok() {
        body.value()
    } else {
        Seq::empty()
    };
    (statements, body.errors + outer_errors(statements))
}

/// Reaching an outcome in two steps is reaching it in one.
pub broadcast proof fn lemma_after_after<T>(
    used: nat,
    errors: Seq<ErrorView>,
    more: nat,
    others: Seq<ErrorView>,
    rest: Outcome<T>,
)
    ensures
        #[trigger] after(used, errors, after(more, others, rest)) == after(
            used + more,
            errors + others,
            rest,
        ),
{
    assert(errors + (others + rest.errors) =~= (errors + others) + rest.errors);
}

/// Diagnostics add up in order, however they are grouped.
pub broadcast proof fn lemma_errors_assoc(a: Seq<ErrorView>, b: Seq<ErrorView>, c: Seq<ErrorView>)
    ensures
        #[trigger] ((a + b) + c) == a + (b + c),
{
    assert((a + b) + c =~= a + (b + c));
}

/// No diagnostics add nothing.
pub broadcast proof fn lemma_errors_unit(a: Seq<ErrorView>)
    ensures
        #[trigger] (a + no_errors()) == a,
        #[trigger] (no_errors() + a) == a,
        #[trigger] (a + Seq::<ErrorView>::empty()) == a,
        #[trigger] (Seq::<ErrorView>::empty() + a) == a,
{
    assert(a + no_errors() =~= a);
    assert(no_errors() + a =~= a);
}

/// One more diagnostic is a sequence of one added.
pub broadcast proof fn lemma_errors_push(a: Seq<ErrorView>, e: ErrorView)
    ensures
        #[trigger] a.push(e) == a + seq![e],
{
    assert(a.push(e) =~= a + seq![e]);
}

pub broadcast group group_outcomes {
    lemma_after_after,
    lemma_errors_assoc,
    lemma_errors_unit,
    lemma_errors_push,
}

/// The skipping after a malformed entry ends at the first token that ends it.
pub proof fn lemma_skipped(c: Lexed, p: nat, q: nat, types: bool, close: TokenKind)
    requires
        p <= q < c.tokens.len(),
        forall|i: int| p <= i < q ==> !ends_skip((#[trigger] c.tokens[i]).kind, types, close),
        ends_skip(c.kind(q), types, close),
    ensures
        skipped(c, p, types, close) == q - p,
    decreases q - p,
{
    if p < q {
        assert(c.kind(p) == c.tokens[p as int].kind);
        lemma_skipped(c, p + 1, q, types, close);
    }
}

} // verus!
