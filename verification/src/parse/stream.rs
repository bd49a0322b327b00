//! From raw tokens to final ones: whitespace dropped, keywords recognised,
//! operators merged, byte positions attached.
use crate::ast::token::{LiteralKind, OpKind, Token, TokenKind};
use crate::lex;
use crate::lex::lexer::{byte_len, lemma_byte_len_range, lemma_byte_len_split, Lexer};
use crate::lex::{lemma_scan_bounds, run_end, scan, CharClass};
use crate::parse::grammar::Lexed;
use vstd::prelude::*;
use vstd::std_specs::convert::FromSpec;

verus! {

/// A final token as a range of characters of the source.
pub struct Lexeme {
    pub kind: TokenKind,
    pub start: nat,
    pub end: nat,
}

/// The kind of the word `word`: one of the six keywords, a boolean literal,
/// or else an identifier.
pub open spec fn keyword_kind(word: Seq<char>) -> TokenKind {
    if word == "fn"@ {
        TokenKind::Fn
    } else if word == "struct"@ {
        TokenKind::Struct
    } else if word == "enum"@ {
        TokenKind::Enum
    } else if word == "let"@ {
        TokenKind::Let
    } else if word == "if"@ {
        TokenKind::If
    } else if word == "else"@ {
        TokenKind::Else
    } else if word == "true"@ || word == "false"@ {
        TokenKind::Literal { kind: LiteralKind::Bool }
    } else {
        TokenKind::Identifier
    }
}

/// The operator that a raw one-character token stands for where it stands alone.
pub open spec fn plain_op(raw: lex::TokenKind) -> Option<OpKind> {
    match raw {
        lex::TokenKind::Pipe => Some(OpKind::Pipe),
        lex::TokenKind::And => Some(OpKind::And),
        lex::TokenKind::Caret => Some(OpKind::Caret),
        lex::TokenKind::Tilde => Some(OpKind::Tilde),
        lex::TokenKind::Plus => Some(OpKind::Plus),
        lex::TokenKind::Minus => Some(OpKind::Minus),
        lex::TokenKind::Star => Some(OpKind::Star),
        lex::TokenKind::FSlash => Some(OpKind::FSlash),
        lex::TokenKind::Percent => Some(OpKind::Percent),
        _ => None,
    }
}

/// Whether a raw token is one of the one-character operators that may begin
/// a longer one.
pub open spec fn is_operator(raw: lex::TokenKind) -> bool {
    ||| plain_op(raw) is Some
    ||| raw == lex::TokenKind::Bang
    ||| raw == lex::TokenKind::Lt
    ||| raw == lex::TokenKind::Gt
    ||| raw == lex::TokenKind::Eq
}

/// The token that begins with the raw operator `a`, given the two raw tokens
/// `b` and `c` that follow it, and the number of raw tokens that it takes.
pub open spec fn composite(a: lex::TokenKind, b: lex::TokenKind, c: lex::TokenKind) -> (
    TokenKind,
    nat,
) {
    if a == lex::TokenKind::Minus && b == lex::TokenKind::Gt {
        (TokenKind::RArrow, 2)
    } else if a == lex::TokenKind::Pipe && b == lex::TokenKind::Pipe {
        (TokenKind::PipePipe, 2)
    } else if a == lex::TokenKind::And && b == lex::TokenKind::And {
        (TokenKind::AndAnd, 2)
    } else if a == lex::TokenKind::Eq && b == lex::TokenKind::Eq {
        (TokenKind::EqEq, 2)
    } else if a == lex::TokenKind::Gt && b == lex::TokenKind::Eq {
        (TokenKind::GtEq, 2)
    } else if a == lex::TokenKind::Lt && b == lex::TokenKind::Eq {
        (TokenKind::LtEq, 2)
    } else if a == lex::TokenKind::Bang && b == lex::TokenKind::Eq {
        (TokenKind::BangEq, 2)
    } else if a == lex::TokenKind::Lt && b == lex::TokenKind::Lt {
        if c == lex::TokenKind::Eq {
            (TokenKind::OpEq { kind: OpKind::ShiftL }, 3)
        } else {
            (TokenKind::Op { kind: OpKind::ShiftL }, 2)
        }
    } else if a == lex::TokenKind::Gt && b == lex::TokenKind::Gt {
        if c == lex::TokenKind::Eq {
            (TokenKind::OpEq { kind: OpKind::ShiftR }, 3)
        } else {
            (TokenKind::Op { kind: OpKind::ShiftR }, 2)
        }
    } else if a == lex::TokenKind::Pipe && b == lex::TokenKind::Gt {
        (TokenKind::PipeGt, 2)
    } else if a == lex::TokenKind::Bang {
        (TokenKind::Bang, 1)
    } else if a == lex::TokenKind::Lt {
        (TokenKind::Lt, 1)
    } else if a == lex::TokenKind::Gt {
        (TokenKind::Gt, 1)
    } else if a == lex::TokenKind::Eq {
        (TokenKind::Eq, 1)
    } else if plain_op(a) is Some {
        if b == lex::TokenKind::Eq {
            (TokenKind::OpEq { kind: plain_op(a)->0 }, 2)
        } else {
            (TokenKind::Op { kind: plain_op(a)->0 }, 1)
        }
    } else {
        (TokenKind::Unknown, 1)
    }
}

/// The final kind of a raw token that is no operator, identifier or whitespace.
pub open spec fn plain_kind(raw: lex::TokenKind) -> TokenKind {
    match raw {
        lex::TokenKind::Semi => TokenKind::Semi,
        lex::TokenKind::Colon => TokenKind::Colon,
        lex::TokenKind::Comma => TokenKind::Comma,
        lex::TokenKind::Dot => TokenKind::Dot,
        lex::TokenKind::OpenParen => TokenKind::OpenParen,
        lex::TokenKind::CloseParen => TokenKind::CloseParen,
        lex::TokenKind::OpenBrace => TokenKind::OpenBrace,
        lex::TokenKind::CloseBrace => TokenKind::CloseBrace,
        lex::TokenKind::OpenBracket => TokenKind::OpenBracket,
        lex::TokenKind::CloseBracket => TokenKind::CloseBracket,
        lex::TokenKind::BSlash => TokenKind::BSlash,
        lex::TokenKind::EOF => TokenKind::EOF,
        lex::TokenKind::Literal { kind } => TokenKind::Literal { kind: LiteralKind::from_spec(kind) },
        _ => TokenKind::Unknown,
    }
}

/// The final token that starts at index `start`, where no whitespace starts.
/// Raw tokens merge only where they touch: the tokens looked at after the
/// first are the raw tokens that follow it directly.
pub open spec fn merged(src: Seq<char>, start: nat) -> Lexeme {
    let first = scan(src, start);
    let second = scan(src, first.end);
    let third = scan(src, second.end);
    if first.kind == lex::TokenKind::Identifier {
        Lexeme { kind: keyword_kind(src.subrange(start as int, first.end as int)), start, end: first.end }
    } else if is_operator(first.kind) {
        let (kind, count) = composite(first.kind, second.kind, third.kind);
        Lexeme {
            kind,
            start,
            end: if count == 1 {
                first.end
            } else if count == 2 {
                second.end
            } else {
                third.end
            },
        }
    } else {
        Lexeme { kind: plain_kind(first.kind), start, end: first.end }
    }
}

/// The first final token at or after index `i`: whitespace is skipped.
pub open spec fn next_lexeme(src: Seq<char>, i: nat) -> Lexeme {
    merged(src, run_end(src, i, CharClass::Whitespace))
}

/// Every final token lies inside the text. One that is not the end of input
/// is not empty, and the end of input is.
pub proof fn lemma_next_lexeme_bounds(src: Seq<char>, i: nat)
    requires
        i <= src.len(),
    ensures
        i <= next_lexeme(src, i).start <= next_lexeme(src, i).end <= src.len(),
        next_lexeme(src, i).kind != TokenKind::EOF ==> next_lexeme(src, i).start < next_lexeme(
            src,
            i,
        ).end,
        next_lexeme(src, i).kind == TokenKind::EOF ==> next_lexeme(src, i).start == src.len()
            && next_lexeme(src, i).end == src.len(),
{
    lex::lemma_run_end_bounds(src, i, CharClass::Whitespace);
    let start = run_end(src, i, CharClass::Whitespace);
    let first = scan(src, start);
    lemma_scan_bounds(src, start);
    if start < src.len() {
        lemma_scan_bounds(src, first.end);
        let second = scan(src, first.end);
        lemma_scan_bounds(src, second.end);
    }
}

/// The final tokens of `src` from index `i` on, the end of input last.
pub open spec fn lexemes_from(src: Seq<char>, i: nat) -> Seq<Lexeme>
    decreases src.len() - i,
{
    let first = next_lexeme(src, i);
    if i > src.len() || first.kind == TokenKind::EOF {
        seq![first]
    } else {
        proof {
            lemma_next_lexeme_bounds(src, i);
        }
        seq![first] + lexemes_from(src, first.end)
    }
}

/// The final tokens of the text `src`.
pub open spec fn tokenize(src: Seq<char>) -> Seq<Lexeme> {
    lexemes_from(src, 0)
}

/// Whether `token` is the final token `lexeme` of `src`, placed in bytes.
pub open spec fn places(src: Seq<char>, lexeme: Lexeme, token: Token) -> bool {
    &&& token.kind == lexeme.kind
    &&& token.start == byte_len(src.subrange(0, lexeme.start as int))
    &&& token.end == byte_len(src.subrange(0, lexeme.end as int))
}

/// The shape of a tokenization: it ends with the end of input and holds it
/// nowhere else, and each token lies inside the text, after the one before it.
pub proof fn lemma_lexemes_shape(src: Seq<char>, i: nat)
    requires
        i <= src.len(),
    ensures
        lexemes_from(src, i).len() >= 1,
        lexemes_from(src, i).last().kind == TokenKind::EOF,
        lexemes_from(src, i).last().start == src.len(),
        lexemes_from(src, i).last().end == src.len(),
        forall|k: int|
            0 <= k < lexemes_from(src, i).len() - 1 ==> (#[trigger] lexemes_from(src, i)[k]).kind
                != TokenKind::EOF,
        forall|k: int|
            0 <= k < lexemes_from(src, i).len() ==> i <= (#[trigger] lexemes_from(src, i)[k]).start
                <= lexemes_from(src, i)[k].end <= src.len(),
    decreases src.len() - i,
{
    let first = next_lexeme(src, i);
    lemma_next_lexeme_bounds(src, i);
    if first.kind != TokenKind::EOF {
        lemma_lexemes_shape(src, first.end);
        let rest = lexemes_from(src, first.end);
        let all = lexemes_from(src, i);
        assert(all == seq![first] + rest);
        assert forall|k: int| 0 <= k < all.len() implies i <= (#[trigger] all[k]).start
            <= all[k].end <= src.len() by {
            if k > 0 {
                assert(all[k] == rest[k - 1]);
            }
        }
        assert forall|k: int| 0 <= k < all.len() - 1 implies (#[trigger] all[k]).kind
            != TokenKind::EOF by {
            if k > 0 {
                assert(all[k] == rest[k - 1]);
            }
        }
    }
}

/// Within a tokenization, a later token begins where or after an earlier one ends.
pub proof fn lemma_lexemes_ordered(src: Seq<char>, i: nat, a: int, b: int)
    requires
        i <= src.len(),
        0 <= a < b < lexemes_from(src, i).len(),
    ensures
        lexemes_from(src, i)[a].end <= lexemes_from(src, i)[b].start,
    decreases src.len() - i,
{
    let first = next_lexeme(src, i);
    lemma_next_lexeme_bounds(src, i);
    let rest = lexemes_from(src, first.end);
    let all = lexemes_from(src, i);
    assert(all == seq![first] + rest);
    lemma_lexemes_shape(src, first.end);
    assert(all[b] == rest[b - 1]);
    if a > 0 {
        assert(all[a] == rest[a - 1]);
        lemma_lexemes_ordered(src, first.end, a - 1, b - 1);
    }
}

/// Adding the bytes of a raw token to the bytes before it gives the bytes
/// before its end, which fit in the text.
proof fn lemma_advance(src: Seq<char>, from: int, to: int)
    requires
        0 <= from <= to <= src.len(),
    ensures
        byte_len(src.subrange(0, from)) + byte_len(src.subrange(from, to)) == byte_len(
            src.subrange(0, to),
        ),
        byte_len(src.subrange(0, to)) <= byte_len(src),
{
    lemma_byte_len_split(src, 0, from, to);
    lemma_byte_len_range(src, 0, to);
}

/// Whether `token` is the raw token of `src` that starts at `start` and ends at `end`.
pub open spec fn raw_at(src: Seq<char>, start: nat, token: lex::Token, end: nat) -> bool {
    &&& start <= end <= src.len()
    &&& token.kind == scan(src, start).kind
    &&& end == scan(src, start).end
    &&& token.length == byte_len(src.subrange(start as int, end as int))
}

/// Reads final tokens off a scanner. Where it had to look at a raw token that
/// turned out not to belong to the token at hand, it keeps that one token for
/// the next call.
pub struct StringReader {
    lex: Lexer,
    pos: usize,
    reserved_lex_token: Option<lex::Token>,
    reserved_start: usize,
}

impl StringReader {
    /// The whole source text.
    pub closed spec fn source(&self) -> Seq<char> {
        self.lex.source()
    }

    /// Index of the first character that no token handed out so far covers.
    pub closed spec fn cursor(&self) -> nat {
        if self.reserved_lex_token is Some {
            self.reserved_start as nat
        } else {
            self.lex.offset()
        }
    }

    /// The scanner stands between two raw tokens, the byte position is that of
    /// the cursor, and a reserved token is the raw token at the cursor.
    pub closed spec fn wf(&self) -> bool {
        &&& self.settled()
        &&& self.pos == byte_len(self.source().subrange(0, self.cursor() as int))
        &&& self.cursor() <= self.lex.offset()
        &&& match self.reserved_lex_token {
            Some(token) => raw_at(self.source(), self.cursor(), token, self.lex.offset()),
            None => true,
        }
    }

    spec fn settled(&self) -> bool {
        &&& self.lex.wf()
        &&& self.lex.token_start() == self.lex.offset()
    }

    /// The cursor lies inside the text.
    pub proof fn lemma_cursor(&self)
        requires
            self.wf(),
        ensures
            self.cursor() <= self.source().len(),
    {
        self.lex.lemma_bounds();
    }

    /// The source text fits in the address space.
    pub proof fn lemma_source_fits(&self)
        requires
            self.wf(),
        ensures
            byte_len(self.source()) <= usize::MAX,
    {
        self.lex.lemma_bounds();
    }

    pub fn new(input: &str) -> (reader: StringReader)
        ensures
            reader.wf(),
            reader.source() == input@,
            reader.cursor() == 0,
    {
        let lex = Lexer::new(input);
        assert(lex.source().subrange(0, 0) =~= Seq::<char>::empty());
        StringReader { lex, pos: 0, reserved_lex_token: None, reserved_start: 0 }
    }

    /// The next raw token, which is the reserved one where there is one, and
    /// the index of its first character. The byte position stays behind.
    fn raw(&mut self) -> (r: (lex::Token, usize))
        requires
            old(self).wf(),
        ensures
            final(self).settled(),
            final(self).source() == old(self).source(),
            final(self).reserved_lex_token is None,
            final(self).pos == old(self).pos,
            r.1 == old(self).cursor(),
            raw_at(old(self).source(), old(self).cursor(), r.0, final(self).lex.offset()),
    {
        proof {
            self.lex.lemma_bounds();
        }
        match self.reserved_lex_token {
            Some(token) => {
                self.reserved_lex_token = None;
                (token, self.reserved_start)
            },
            None => {
                let first = self.lex.position();
                let token = self.lex.next_token();
                proof {
                    lemma_scan_bounds(self.lex.source(), first as nat);
                    assert(self.lex.source().subrange(first as int, first as int)
                        =~= Seq::<char>::empty());
                }
                (token, first)
            },
        }
    }

    /// Index of the first character that no token handed out so far covers.
    fn cursor_index(&self) -> (i: usize)
        requires
            self.wf(),
        ensures
            i == self.cursor(),
    {
        match self.reserved_lex_token {
            Some(_) => self.reserved_start,
            None => self.lex.position(),
        }
    }

    /// The next final token, with the range of characters that it covers.
    pub fn take(&mut self) -> (r: (Token, usize, usize))
        requires
            old(self).wf(),
        ensures
            final(self).wf(),
            final(self).source() == old(self).source(),
            places(old(self).source(), next_lexeme(old(self).source(), old(self).cursor()), r.0),
            r.1 == next_lexeme(old(self).source(), old(self).cursor()).start,
            r.2 == next_lexeme(old(self).source(), old(self).cursor()).end,
            final(self).cursor() == next_lexeme(old(self).source(), old(self).cursor()).end,
    {
        let ghost src = self.source();
        proof {
            self.lemma_cursor();
        }
        loop
            invariant
                self.wf(),
                self.source() == src,
                src == old(self).source(),
                self.cursor() <= src.len(),
                run_end(src, self.cursor(), CharClass::Whitespace) == run_end(
                    src,
                    old(self).cursor(),
                    CharClass::Whitespace,
                ),
            decreases src.len() - self.cursor(),
        {
            let (raw, first) = self.raw();
            let end = self.lex.position();
            let start = self.pos;
            proof {
                self.lex.lemma_bounds();
                lemma_advance(src, first as int, end as int);
                lemma_scan_bounds(src, first as nat);
                lex::lemma_scan_whitespace(src, first as nat);
                lex::lemma_run_end_idempotent(src, first as nat, CharClass::Whitespace);
            }
            self.pos = self.pos + raw.length;
            let kind = match raw.kind {
                lex::TokenKind::Whitespace => {
                    continue ;
                },
                lex::TokenKind::Identifier => self.identifier_or_other(first, end),
                lex::TokenKind::Semi => TokenKind::Semi,
                lex::TokenKind::Colon => TokenKind::Colon,
                lex::TokenKind::Comma => TokenKind::Comma,
                lex::TokenKind::Dot => TokenKind::Dot,
                lex::TokenKind::OpenParen => TokenKind::OpenParen,
                lex::TokenKind::CloseParen => TokenKind::CloseParen,
                lex::TokenKind::OpenBrace => TokenKind::OpenBrace,
                lex::TokenKind::CloseBrace => TokenKind::CloseBrace,
                lex::TokenKind::OpenBracket => TokenKind::OpenBracket,
                lex::TokenKind::CloseBracket => TokenKind::CloseBracket,
                lex::TokenKind::BSlash => TokenKind::BSlash,
                lex::TokenKind::EOF => TokenKind::EOF,
                lex::TokenKind::Literal { kind } => TokenKind::Literal {
                    kind: LiteralKind::from(kind),
                },
                lex::TokenKind::Unknown => TokenKind::Unknown,
                lex::TokenKind::Bang
                | lex::TokenKind::Lt
                | lex::TokenKind::Gt
                | lex::TokenKind::Pipe
                | lex::TokenKind::And
                | lex::TokenKind::Caret
                | lex::TokenKind::Tilde
                | lex::TokenKind::Eq
                | lex::TokenKind::Plus
                | lex::TokenKind::Minus
                | lex::TokenKind::Star
                | lex::TokenKind::FSlash
                | lex::TokenKind::Percent => self.operator(raw.kind),
            };
            let last = self.cursor_index();
            return (Token::new(kind, start, self.pos), first, last);
        }
    }

    /// The kind of the word that spans the characters from `start` to `end`.
    fn identifier_or_other(&self, start: usize, end: usize) -> (kind: TokenKind)
        requires
            self.lex.wf(),
            start <= end <= self.source().len(),
        ensures
            kind == keyword_kind(self.source().subrange(start as int, end as int)),
    {
        let chars = self.lex.chars();
        if spells(chars, start, end, "fn") {
            TokenKind::Fn
        } else if spells(chars, start, end, "struct") {
            TokenKind::Struct
        } else if spells(chars, start, end, "enum") {
            TokenKind::Enum
        } else if spells(chars, start, end, "let") {
            TokenKind::Let
        } else if spells(chars, start, end, "if") {
            TokenKind::If
        } else if spells(chars, start, end, "else") {
            TokenKind::Else
        } else if spells(chars, start, end, "true") || spells(chars, start, end, "false") {
            TokenKind::Literal { kind: LiteralKind::Bool }
        } else {
            TokenKind::Identifier
        }
    }

    /// Keeps the raw token `token`, which starts at `start`, for the next call.
    fn reserve(&mut self, token: lex::Token, start: usize)
        requires
            old(self).settled(),
            old(self).reserved_lex_token is None,
            raw_at(old(self).source(), start as nat, token, old(self).lex.offset()),
            old(self).pos == byte_len(old(self).source().subrange(0, start as int)),
        ensures
            final(self).wf(),
            final(self).source() == old(self).source(),
            final(self).cursor() == start,
    {
        self.reserved_lex_token = Some(token);
        self.reserved_start = start;
    }

    /// Moves the byte position over the raw token `token`, which was just scanned.
    fn accept(&mut self, token: lex::Token, Ghost(start): Ghost<nat>)
        requires
            old(self).settled(),
            old(self).reserved_lex_token is None,
            raw_at(old(self).source(), start, token, old(self).lex.offset()),
            old(self).pos == byte_len(old(self).source().subrange(0, start as int)),
        ensures
            final(self).wf(),
            final(self).source() == old(self).source(),
            final(self).cursor() == old(self).lex.offset(),
            final(self).lex == old(self).lex,
            final(self).reserved_lex_token is None,
    {
        proof {
            self.lex.lemma_bounds();
            lemma_advance(self.source(), start as int, self.lex.offset() as int);
        }
        self.pos = self.pos + token.length;
    }

    /// Finishes the token that began with the raw operator `op`, which was
    /// just taken: looks at the raw token after it, and at one more where a
    /// two-character operator may still become an assignment.
    fn operator(&mut self, op: lex::TokenKind) -> (kind: TokenKind)
        requires
            old(self).wf(),
            old(self).reserved_lex_token is None,
            is_operator(op),
        ensures
            final(self).wf(),
            final(self).source() == old(self).source(),
            ({
                let src = old(self).source();
                let second = scan(src, old(self).cursor());
                let third = scan(src, second.end);
                let (k, count) = composite(op, second.kind, third.kind);
                &&& kind == k
                &&& final(self).cursor() == if count == 1 {
                    old(self).cursor()
                } else if count == 2 {
                    second.end
                } else {
                    third.end
                }
            }),
    {
        let ghost src = self.source();
        proof {
            self.lex.lemma_bounds();
        }
        let (second, at) = self.raw();
        proof {
            self.lex.lemma_bounds();
            lemma_scan_bounds(src, at as nat);
            lemma_scan_bounds(src, self.lex.offset());
        }
        if op == lex::TokenKind::Minus && second.kind == lex::TokenKind::Gt {
            self.accept(second, Ghost(at as nat));
            return TokenKind::RArrow;
        }
        if op == lex::TokenKind::Pipe && second.kind == lex::TokenKind::Pipe {
            self.accept(second, Ghost(at as nat));
            return TokenKind::PipePipe;
        }
        if op == lex::TokenKind::And && second.kind == lex::TokenKind::And {
            self.accept(second, Ghost(at as nat));
            return TokenKind::AndAnd;
        }
        if op == lex::TokenKind::Eq && second.kind == lex::TokenKind::Eq {
            self.accept(second, Ghost(at as nat));
            return TokenKind::EqEq;
        }
        if op == lex::TokenKind::Gt && second.kind == lex::TokenKind::Eq {
            self.accept(second, Ghost(at as nat));
            return TokenKind::GtEq;
        }
        if op == lex::TokenKind::Lt && second.kind == lex::TokenKind::Eq {
            self.accept(second, Ghost(at as nat));
            return TokenKind::LtEq;
        }
        if op == lex::TokenKind::Bang && second.kind == lex::TokenKind::Eq {
            self.accept(second, Ghost(at as nat));
            return TokenKind::BangEq;
        }
        let shift = (op == lex::TokenKind::Lt && second.kind == lex::TokenKind::Lt) || (op
            == lex::TokenKind::Gt && second.kind == lex::TokenKind::Gt);
        if shift || (op == lex::TokenKind::Pipe && second.kind == lex::TokenKind::Gt) {
            self.accept(second, Ghost(at as nat));
            let (third, after) = self.raw();
            if shift {
                let base = if op == lex::TokenKind::Lt {
                    OpKind::ShiftL
                } else {
                    OpKind::ShiftR
                };
                if third.kind == lex::TokenKind::Eq {
                    self.accept(third, Ghost(after as nat));
                    return TokenKind::OpEq { kind: base };
                }
                self.reserve(third, after);
                return TokenKind::Op { kind: base };
            }
            self.reserve(third, after);
            return TokenKind::PipeGt;
        }
        let base = match op {
            lex::TokenKind::Pipe => OpKind::Pipe,
            lex::TokenKind::And => OpKind::And,
            lex::TokenKind::Caret => OpKind::Caret,
            lex::TokenKind::Tilde => OpKind::Tilde,
            lex::TokenKind::Plus => OpKind::Plus,
            lex::TokenKind::Minus => OpKind::Minus,
            lex::TokenKind::Star => OpKind::Star,
            lex::TokenKind::FSlash => OpKind::FSlash,
            lex::TokenKind::Percent => OpKind::Percent,
            lex::TokenKind::Bang => {
                self.reserve(second, at);
                return TokenKind::Bang;
            },
            lex::TokenKind::Lt => {
                self.reserve(second, at);
                return TokenKind::Lt;
            },
            lex::TokenKind::Gt => {
                self.reserve(second, at);
                return TokenKind::Gt;
            },
            _ => {
                self.reserve(second, at);
                return TokenKind::Eq;
            },
        };
        if second.kind == lex::TokenKind::Eq {
            self.accept(second, Ghost(at as nat));
            return TokenKind::OpEq { kind: base };
        }
        self.reserve(second, at);
        TokenKind::Op { kind: base }
    }

    /// Gives up the reader and keeps the characters of the source.
    pub fn into_chars(self) -> (chars: Vec<char>)
        ensures
            chars@ == self.source(),
    {
        self.lex.into_chars()
    }
}

/// `String::push` of the standard library appends one character to the end
/// of the string.
pub assume_specification[ String::push ](s: &mut String, ch: char)
    ensures
        final(s)@ == old(s)@.push(ch),
;

/// The text of `chars` from index `start` up to index `end`.
pub fn string_of(chars: &Vec<char>, start: usize, end: usize) -> (s: String)
    requires
        start <= end <= chars.len(),
    ensures
        s@ == chars@.subrange(start as int, end as int),
{
    let mut s = String::new();
    let mut i = start;
    assert(s@ =~= chars@.subrange(start as int, start as int));
    while i < end
        invariant
            start <= i <= end <= chars.len(),
            s@ == chars@.subrange(start as int, i as int),
        decreases end - i,
    {
        s.push(chars[i]);
        i = i + 1;
        assert(s@ =~= chars@.subrange(start as int, i as int));
    }
    s
}

/// Whether the text of `chars` from `start` up to `end` is the word `word`.
pub fn spells(chars: &Vec<char>, start: usize, end: usize, word: &str) -> (b: bool)
    requires
        start <= end <= chars.len(),
    ensures
        b == (chars@.subrange(start as int, end as int) == word@),
{
    let n = word.unicode_len();
    if end - start != n {
        return false;
    }
    let mut i: usize = 0;
    while i < n
        invariant
            start <= end <= chars.len(),
            end - start == n,
            n == word@.len(),
            i <= n,
            forall|j: int| 0 <= j < i ==> chars@[start + j] == word@[j],
        decreases n - i,
    {
        if chars[start + i] != word.get_char(i) {
            assert(chars@.subrange(start as int, end as int)[i as int] != word@[i as int]);
            return false;
        }
        i = i + 1;
    }
    assert(chars@.subrange(start as int, end as int) =~= word@);
    true
}

/// The final token `lexeme` of `src`, placed in bytes.
pub open spec fn placed(src: Seq<char>, lexeme: Lexeme) -> Token {
    Token {
        kind: lexeme.kind,
        start: byte_len(src.subrange(0, lexeme.start as int)) as usize,
        end: byte_len(src.subrange(0, lexeme.end as int)) as usize,
    }
}

/// The tokens of the text `src`, each with the text that it covers.
#[verifier::opaque]
pub open spec fn lexed_text(src: Seq<char>) -> Lexed {
    Lexed {
        tokens: Seq::new(tokenize(src).len(), |i: int| placed(src, tokenize(src)[i])),
        texts: Seq::new(
            tokenize(src).len(),
            |i: int| src.subrange(tokenize(src)[i].start as int, tokenize(src)[i].end as int),
        ),
    }
}

/// The tokens of any text end with the end of input and hold it nowhere else.
pub proof fn lemma_lexed_text(src: Seq<char>)
    ensures
        lexed_text(src).wf(),
{
    reveal(lexed_text);
    lemma_lexemes_shape(src, 0);
}

/// The byte offsets of the tokens advance: no token ends before it begins,
/// each begins where or after the one before it ends, and none goes past the
/// end of the text.
pub proof fn lemma_tokens_in_order(src: Seq<char>, i: int, j: int)
    requires
        byte_len(src) <= usize::MAX,
        0 <= i < j < lexed_text(src).tokens.len(),
    ensures
        lexed_text(src).tokens[i].start <= lexed_text(src).tokens[i].end,
        lexed_text(src).tokens[i].end <= lexed_text(src).tokens[j].start,
        lexed_text(src).tokens[j].start <= lexed_text(src).tokens[j].end,
        lexed_text(src).tokens[j].end <= byte_len(src),
{
    reveal(lexed_text);
    let lexemes = tokenize(src);
    lemma_lexemes_shape(src, 0);
    lemma_lexemes_ordered(src, 0, i, j);
    let (a, b) = (lexemes[i].start as int, lexemes[i].end as int);
    let (c, d) = (lexemes[j].start as int, lexemes[j].end as int);
    lemma_byte_len_split(src, 0, a, b);
    lemma_byte_len_split(src, 0, b, c);
    lemma_byte_len_split(src, 0, c, d);
    lemma_byte_len_range(src, 0, d);
}

/// The last token is the end of input: an empty token at the end of the text.
pub proof fn lemma_end_of_input(src: Seq<char>)
    requires
        byte_len(src) <= usize::MAX,
    ensures
        lexed_text(src).tokens.last() == (Token {
            kind: TokenKind::EOF,
            start: byte_len(src) as usize,
            end: byte_len(src) as usize,
        }),
{
    reveal(lexed_text);
    lemma_lexemes_shape(src, 0);
    assert(src.subrange(0, src.len() as int) =~= src);
}

/// The tokens of one source text, all scanned ahead, with a position that
/// can be saved and restored. Beside the tokens it keeps the characters of the
/// source and, for each token, the range of characters that it covers.
pub struct TokenStream {
    pub pos: usize,
    pub tokens: Vec<Token>,
    pub chars: Vec<char>,
    pub spans: Vec<(usize, usize)>,
}

impl TokenStream {
    /// The whole source text.
    pub closed spec fn source(&self) -> Seq<char> {
        self.chars@
    }

    /// The tokens of the source, each with the text that it covers.
    pub closed spec fn lexed(&self) -> Lexed {
        lexed_text(self.chars@)
    }

    /// The tokens kept are the tokens of the source, and the ranges of
    /// characters kept for them are those that they cover.
    pub closed spec fn wf(&self) -> bool {
        let lexemes = tokenize(self.chars@);
        &&& self.tokens@ == lexed_text(self.chars@).tokens
        &&& self.spans.len() == lexemes.len()
        &&& byte_len(self.chars@) <= usize::MAX
        &&& forall|i: int|
            0 <= i < lexemes.len() ==> (#[trigger] self.spans[i]).0 == lexemes[i].start
                && self.spans[i].1 == lexemes[i].end
    }

    /// A well-formed stream holds the tokens of its source: at least the end
    /// of input, which comes last and only there.
    pub proof fn lemma_shape(&self)
        requires
            self.wf(),
        ensures
            self.lexed() == lexed_text(self.source()),
            self.tokens@ == self.lexed().tokens,
            self.lexed().wf(),
    {
        reveal(lexed_text);
        lemma_lexemes_shape(self.chars@, 0);
    }

    /// Scans the whole of `input`.
    pub fn new(input: &str) -> (stream: TokenStream)
        ensures
            stream.wf(),
            stream.source() == input@,
            stream.lexed() == lexed_text(input@),
            stream.pos == 0,
    {
        let mut reader = StringReader::new(input);
        let mut tokens: Vec<Token> = Vec::new();
        let mut spans: Vec<(usize, usize)> = Vec::new();
        let ghost src = input@;
        let ghost mut done: Seq<Lexeme> = Seq::empty();
        proof {
            reader.lemma_cursor();
            assert(done + lexemes_from(src, 0) =~= tokenize(src));
        }
        loop
            invariant_except_break
                done + lexemes_from(src, reader.cursor()) == tokenize(src),
            invariant
                reader.wf(),
                reader.source() == src,
                reader.cursor() <= src.len(),
                tokens.len() == done.len(),
                spans.len() == done.len(),
                forall|i: int| 0 <= i < done.len() ==> places(src, done[i], #[trigger] tokens[i]),
                forall|i: int|
                    0 <= i < done.len() ==> (#[trigger] spans[i]).0 == done[i].start && spans[i].1
                        == done[i].end,
            ensures
                done == tokenize(src),
            decreases src.len() - reader.cursor(),
        {
            let ghost at = reader.cursor();
            let ghost lexeme = next_lexeme(src, at);
            let (token, first, last) = reader.take();
            tokens.push(token);
            spans.push((first, last));
            proof {
                lemma_next_lexeme_bounds(src, at);
                if lexeme.kind == TokenKind::EOF {
                    assert(done.push(lexeme) =~= done + lexemes_from(src, at));
                } else {
                    assert(done.push(lexeme) + lexemes_from(src, lexeme.end) =~= done
                        + lexemes_from(src, at));
                }
                done = done.push(lexeme);
            }
            if token.kind == TokenKind::EOF {
                break ;
            }
        }
        proof {
            reader.lemma_source_fits();
        }
        let chars = reader.into_chars();
        proof {
            reveal(lexed_text);
            assert(tokens@ =~= lexed_text(src).tokens);
        }
        TokenStream { pos: 0, tokens, chars, spans }
    }

    /// Number of tokens, the end of input included.
    pub fn len(&self) -> (n: usize)
        requires
            self.wf(),
        ensures
            n == self.lexed().tokens.len(),
            n >= 1,
    {
        proof {
            self.lemma_shape();
        }
        self.tokens.len()
    }

    /// The token at index `i`.
    pub fn get(&self, i: usize) -> (token: Token)
        requires
            self.wf(),
            i < self.lexed().tokens.len(),
        ensures
            token == self.lexed().tokens[i as int],
    {
        self.tokens[i]
    }

    /// The token at the position, which then moves on by one. Past the last
    /// token the answer stays the last token and the position stays.
    pub fn next_token(&mut self) -> (token: Token)
        requires
            old(self).wf(),
        ensures
            final(self).wf(),
            final(self).lexed() == old(self).lexed(),
            final(self).source() == old(self).source(),
            final(self).tokens == old(self).tokens,
            old(self).pos < old(self).lexed().tokens.len() ==> token == old(self).lexed().tokens[old(self).pos as int] && final(self).pos == old(self).pos + 1,
            old(self).pos >= old(self).lexed().tokens.len() ==> token == old(self).lexed().tokens.last() && final(self).pos == old(self).pos,
    {
        proof {
            self.lemma_shape();
        }
        if self.pos < self.tokens.len() {
            let token = self.tokens[self.pos];
            self.pos = self.pos + 1;
            token
        } else {
            self.tokens[self.tokens.len() - 1]
        }
    }

    /// The range of characters that the token at index `i` covers.
    pub fn span(&self, i: usize) -> (span: (usize, usize))
        requires
            self.wf(),
            i < self.lexed().tokens.len(),
        ensures
            span.0 <= span.1 <= self.chars.len(),
            self.lexed().texts[i as int] == self.chars@.subrange(span.0 as int, span.1 as int),
    {
        proof {
            reveal(lexed_text);
            lemma_lexemes_shape(self.chars@, 0);
        }
        self.spans[i]
    }

    /// The text of the token at index `i`.
    pub fn lexeme(&self, i: usize) -> (text: String)
        requires
            self.wf(),
            i < self.lexed().tokens.len(),
        ensures
            text@ == self.lexed().texts[i as int],
    {
        proof {
            reveal(lexed_text);
            lemma_lexemes_shape(self.chars@, 0);
        }
        let span = self.spans[i];
        string_of(&self.chars, span.0, span.1)
    }

    /// The position, to come back to with `reset`.
    pub fn mark(&self) -> (pos: usize)
        ensures
            pos == self.pos,
    {
        self.pos
    }

    /// Moves the position to `pos`.
    pub fn reset(&mut self, pos: usize)
        ensures
            final(self).pos == pos,
            final(self).wf() == old(self).wf(),
            final(self).lexed() == old(self).lexed(),
            final(self).source() == old(self).source(),
            final(self).tokens == old(self).tokens,
    {
        self.pos = pos;
    }
}

} // verus!
