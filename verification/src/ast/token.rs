//! Tokens in their final form: keywords told apart from identifiers, multi-
//! character operators merged, and every token placed in the source.
use crate::lex;
use vstd::prelude::*;
use vstd::std_specs::convert::FromSpecImpl;

verus! {

#[allow(inconsistent_fields)]
#[derive(Clone, Copy, Debug, PartialEq, Eq, Structural)]
pub enum TokenKind {
    Identifier,
    /// `fn`
    Fn,
    /// `struct`
    Struct,
    /// `enum`
    Enum,
    /// `let`
    Let,
    /// `if`
    If,
    /// `else`
    Else,
    /// `->`
    RArrow,
    /// `;`
    Semi,
    /// `:`
    Colon,
    /// `,`
    Comma,
    /// `.`
    Dot,
    /// `(`
    OpenParen,
    /// `)`
    CloseParen,
    /// `{`
    OpenBrace,
    /// `}`
    CloseBrace,
    /// `[`
    OpenBracket,
    /// `]`
    CloseBracket,
    /// `\`
    BSlash,
    /// An arithmetic or bitwise operator.
    Op { kind: OpKind },
    /// An arithmetic or bitwise operator followed by `=`.
    OpEq { kind: OpKind },
    /// `!`
    Bang,
    /// `>`
    Gt,
    /// `<`
    Lt,
    /// `=`
    Eq,
    /// `||`
    PipePipe,
    /// `&&`
    AndAnd,
    /// `==`
    EqEq,
    /// `!=`
    BangEq,
    /// `>=`
    GtEq,
    /// `<=`
    LtEq,
    /// `|>`
    PipeGt,
    Literal { kind: LiteralKind },
    /// A character that starts no token.
    Unknown,
    /// End of input.
    EOF,
}

#[derive(Clone, Copy, Debug, PartialEq, Eq, Structural)]
pub enum OpKind {
    /// `|`
    Pipe,
    /// `&`
    And,
    /// `^`
    Caret,
    /// `~`
    Tilde,
    /// `>>`
    ShiftR,
    /// `<<`
    ShiftL,
    /// `+`
    Plus,
    /// `-`
    Minus,
    /// `*`
    Star,
    /// `/`
    FSlash,
    /// `%`
    Percent,
}

#[derive(Clone, Copy, Debug, PartialEq, Eq, Structural)]
pub enum LiteralKind {
    Bool,
    Int,
    Float,
    Str { terminated: bool },
    Char { terminated: bool },
}

impl From<lex::LiteralKind> for LiteralKind {
    fn from(value: lex::LiteralKind) -> (kind: Self) {
        match value {
            lex::LiteralKind::Int => LiteralKind::Int,
            lex::LiteralKind::Float => LiteralKind::Float,
            lex::LiteralKind::Str { terminated } => LiteralKind::Str { terminated },
            lex::LiteralKind::Char { terminated } => LiteralKind::Char { terminated },
        }
    }
}

impl FromSpecImpl<lex::LiteralKind> for LiteralKind {
    open spec fn obeys_from_spec() -> bool {
        true
    }

    open spec fn from_spec(value: lex::LiteralKind) -> Self {
        match value {
            lex::LiteralKind::Int => LiteralKind::Int,
            lex::LiteralKind::Float => LiteralKind::Float,
            lex::LiteralKind::Str { terminated } => LiteralKind::Str { terminated },
            lex::LiteralKind::Char { terminated } => LiteralKind::Char { terminated },
        }
    }
}

/// A token and the half-open range of bytes it covers in the source.
#[derive(Clone, Copy, Debug, PartialEq, Eq, Structural)]
pub struct Token {
    pub kind: TokenKind,
    pub start: usize,
    pub end: usize,
}

impl Token {
    pub fn new(kind: TokenKind, start: usize, end: usize) -> (token: Token)
        ensures
            token == (Token { kind, start, end }),
    {
        Token { kind, start, end }
    }
}

} // verus!
