//! The scanner: raw tokens without positions or multi-character operators.
pub mod lexer;

use crate::lex::lexer::{byte_len, char_at, Lexer};
use vstd::prelude::*;

verus! {

#[derive(Clone, Copy, Debug, PartialEq, Eq, Structural)]
pub enum TokenKind {
    Identifier,
    Literal { kind: LiteralKind },
    /// A maximal run of whitespace characters.
    Whitespace,
    /// `;`
    Semi,
    /// `:`
    Colon,
    /// `,`
    Comma,
    /// `.`
    Dot,
    /// `(`
    OpenParen,
    /// `)`
    CloseParen,
    /// `{`
    OpenBrace,
    /// `}`
    CloseBrace,
    /// `[`
    OpenBracket,
    /// `]`
    CloseBracket,
    /// `\`
    BSlash,
    /// `=`
    Eq,
    /// `<`
    Lt,
    /// `>`
    Gt,
    /// `|`
    Pipe,
    /// `&`
    And,
    /// `^`
    Caret,
    /// `+`
    Plus,
    /// `-`
    Minus,
    /// `*`
    Star,
    /// `/`
    FSlash,
    /// `%`
    Percent,
    /// `!`
    Bang,
    /// `~`
    Tilde,
    /// Any character that starts no token.
    Unknown,
    /// End of input.
    EOF,
}

#[derive(Clone, Copy, Debug, PartialEq, Eq, Structural)]
pub enum LiteralKind {
    Int,
    Float,
    Str { terminated: bool },
    Char { terminated: bool },
}

/// A raw token: its kind and the number of bytes it spans.
#[derive(Clone, Copy, Debug, PartialEq, Eq, Structural)]
pub struct Token {
    pub kind: TokenKind,
    pub length: usize,
}

impl Token {
    pub fn new(kind: TokenKind, length: usize) -> (token: Token)
        ensures
            token == (Token { kind, length }),
    {
        Token { kind, length }
    }
}

/// The three kinds of character run that the scanner skips over.
pub enum CharClass {
    Whitespace,
    Digit,
    Identifier,
}

/// Whether Unicode counts `c` as alphabetic or numeric.
pub uninterp spec fn alphanumeric(c: char) -> bool;

/// `char::is_alphanumeric` of the standard library answers by the Unicode
/// tables it was built with; nothing more is claimed of it than that the
/// answer depends on the character alone.
pub assume_specification[ char::is_alphanumeric ](c: char) -> (b: bool)
    ensures
        b == alphanumeric(c),
;

pub open spec fn whitespace_char(c: char) -> bool {
    ||| c == '\u{0009}'
    ||| c == '\u{000A}'
    ||| c == '\u{000B}'
    ||| c == '\u{000C}'
    ||| c == '\u{000D}'
    ||| c == '\u{0020}'
    ||| c == '\u{0085}'
    ||| c == '\u{200E}'
    ||| c == '\u{200F}'
    ||| c == '\u{2028}'
    ||| c == '\u{2029}'
}

pub open spec fn ascii_digit(c: char) -> bool {
    0x30 <= c as u32 <= 0x39
}

pub open spec fn ascii_alphabetic(c: char) -> bool {
    0x41 <= c as u32 <= 0x5A || 0x61 <= c as u32 <= 0x7A
}

pub open spec fn identifier_start_char(c: char) -> bool {
    c == '_' || ascii_alphabetic(c)
}

pub open spec fn digit_char(c: char) -> bool {
    c == '_' || ascii_digit(c)
}

pub open spec fn identifier_char(c: char) -> bool {
    c == '_' || alphanumeric(c)
}

pub open spec fn in_class(class: CharClass, c: char) -> bool {
    match class {
        CharClass::Whitespace => whitespace_char(c),
        CharClass::Digit => digit_char(c),
        CharClass::Identifier => identifier_char(c),
    }
}

/// ASCII whitespace, NEXT LINE, the two bidi marks and the two Unicode separators.
pub fn is_whitespace(c: char) -> (b: bool)
    ensures
        b == whitespace_char(c),
{
    c == '\u{0009}' || c == '\u{000A}' || c == '\u{000B}' || c == '\u{000C}' || c == '\u{000D}'
        || c == '\u{0020}' || c == '\u{0085}' || c == '\u{200E}' || c == '\u{200F}' || c
        == '\u{2028}' || c == '\u{2029}'
}

/// One of the ten decimal digits.
pub fn is_ascii_digit(c: char) -> (b: bool)
    ensures
        b == ascii_digit(c),
{
    let v: u32 = c as u32;
    0x30 <= v && v <= 0x39
}

/// An underscore or an ASCII letter.
pub fn is_identifier_start(c: char) -> (b: bool)
    ensures
        b == identifier_start_char(c),
{
    let v: u32 = c as u32;
    c == '_' || (0x41 <= v && v <= 0x5A) || (0x61 <= v && v <= 0x7A)
}

/// An underscore or an ASCII digit: underscores may separate the digits of a number.
pub fn is_digit(c: char) -> (b: bool)
    ensures
        b == digit_char(c),
{
    c == '_' || is_ascii_digit(c)
}

/// An underscore, a letter or a number.
pub fn is_identifier_continue(c: char) -> (b: bool)
    ensures
        b == identifier_char(c),
{
    c == '_' || c.is_alphanumeric()
}

/// The first index at or after `i` whose character is not in `class`, or the
/// length of `src` where every character from `i` on is.
pub open spec fn run_end(src: Seq<char>, i: nat, class: CharClass) -> nat
    decreases src.len() - i,
{
    if i < src.len() && in_class(class, src[i as int]) {
        run_end(src, i + 1, class)
    } else {
        i
    }
}

/// Where a string literal ends whose opening quote lies just before `i`, and
/// whether a closing quote was found. A backslash hides a following quote or
/// backslash.
pub open spec fn string_end(src: Seq<char>, i: nat) -> (nat, bool)
    decreases src.len() - i,
{
    if i >= src.len() {
        (i, false)
    } else if src[i as int] == '"' {
        (i + 1, true)
    } else if src[i as int] == '\\' && (char_at(src, i + 1) == '\\' || char_at(src, i + 1)
        == '"') {
        string_end(src, i + 2)
    } else {
        string_end(src, i + 1)
    }
}

/// Where a character literal ends whose opening quote lies just before `i`,
/// and whether it has the shape of one character, or one escaped pair,
/// followed by a closing quote.
pub open spec fn char_end(src: Seq<char>, i: nat) -> (nat, bool) {
    if i >= src.len() {
        (i, false)
    } else if src[i as int] == '\'' {
        (i + 1, false)
    } else {
        let body: nat = if src[i as int] == '\\' && i + 1 < src.len() {
            i + 2
        } else {
            i + 1
        };
        if char_at(src, body) == '\'' {
            (body + 1, true)
        } else {
            (body, false)
        }
    }
}

/// A raw token as the scanner sees it: its kind and the index just after it.
pub struct Scanned {
    pub kind: TokenKind,
    pub end: nat,
}

/// The number whose first digit lies just before `i`. A dot after the digits
/// makes it a float unless an identifier starts right after the dot.
pub open spec fn number_end(src: Seq<char>, i: nat) -> Scanned {
    let digits = run_end(src, i, CharClass::Digit);
    if char_at(src, digits) == '.' && !identifier_start_char(char_at(src, digits + 1)) {
        Scanned {
            kind: TokenKind::Literal { kind: LiteralKind::Float },
            end: run_end(src, digits + 1, CharClass::Digit),
        }
    } else {
        Scanned { kind: TokenKind::Literal { kind: LiteralKind::Int }, end: digits }
    }
}

/// The kind of a token that is the single character `c`.
pub open spec fn single_kind(c: char) -> TokenKind {
    if c == ';' {
        TokenKind::Semi
    } else if c == ':' {
        TokenKind::Colon
    } else if c == ',' {
        TokenKind::Comma
    } else if c == '(' {
        TokenKind::OpenParen
    } else if c == ')' {
        TokenKind::CloseParen
    } else if c == '{' {
        TokenKind::OpenBrace
    } else if c == '}' {
        TokenKind::CloseBrace
    } else if c == '[' {
        TokenKind::OpenBracket
    } else if c == ']' {
        TokenKind::CloseBracket
    } else if c == '\\' {
        TokenKind::BSlash
    } else if c == '=' {
        TokenKind::Eq
    } else if c == '<' {
        TokenKind::Lt
    } else if c == '>' {
        TokenKind::Gt
    } else if c == '|' {
        TokenKind::Pipe
    } else if c == '&' {
        TokenKind::And
    } else if c == '^' {
        TokenKind::Caret
    } else if c == '+' {
        TokenKind::Plus
    } else if c == '-' {
        TokenKind::Minus
    } else if c == '*' {
        TokenKind::Star
    } else if c == '/' {
        TokenKind::FSlash
    } else if c == '%' {
        TokenKind::Percent
    } else if c == '!' {
        TokenKind::Bang
    } else if c == '~' {
        TokenKind::Tilde
    } else {
        TokenKind::Unknown
    }
}

/// The raw token that starts at index `i` of `src`. At the end of the text it
/// is the empty end-of-input token.
pub open spec fn scan(src: Seq<char>, i: nat) -> Scanned {
    if i >= src.len() {
        Scanned { kind: TokenKind::EOF, end: i }
    } else {
        let c = src[i as int];
        if whitespace_char(c) {
            Scanned { kind: TokenKind::Whitespace, end: run_end(src, i + 1, CharClass::Whitespace) }
        } else if identifier_start_char(c) {
            Scanned { kind: TokenKind::Identifier, end: run_end(src, i + 1, CharClass::Identifier) }
        } else if c == '.' {
            if ascii_digit(char_at(src, i + 1)) {
                Scanned {
                    kind: TokenKind::Literal { kind: LiteralKind::Float },
                    end: run_end(src, i + 1, CharClass::Digit),
                }
            } else {
                Scanned { kind: TokenKind::Dot, end: i + 1 }
            }
        } else if ascii_digit(c) {
            number_end(src, i + 1)
        } else if c == '"' {
            let (end, terminated) = string_end(src, i + 1);
            Scanned { kind: TokenKind::Literal { kind: LiteralKind::Str { terminated } }, end }
        } else if c == '\'' {
            let (end, terminated) = char_end(src, i + 1);
            Scanned { kind: TokenKind::Literal { kind: LiteralKind::Char { terminated } }, end }
        } else {
            Scanned { kind: single_kind(c), end: i + 1 }
        }
    }
}

/// A run ends where its class stops: any index `j` that every character from
/// `i` up to it is in the class, and the one at `j` is not, is the end of the run.
pub proof fn lemma_run_end(src: Seq<char>, i: nat, j: nat, class: CharClass)
    requires
        i <= j <= src.len(),
        forall|m: int| i <= m < j ==> in_class(class, #[trigger] src[m]),
        j < src.len() ==> !in_class(class, src[j as int]),
    ensures
        run_end(src, i, class) == j,
    decreases j - i,
{
    if i < j {
        lemma_run_end(src, i + 1, j, class);
    }
}

/// A run starts at or after `i` and ends inside the text.
pub proof fn lemma_run_end_bounds(src: Seq<char>, i: nat, class: CharClass)
    requires
        i <= src.len(),
    ensures
        i <= run_end(src, i, class) <= src.len(),
    decreases src.len() - i,
{
    if i < src.len() && in_class(class, src[i as int]) {
        lemma_run_end_bounds(src, i + 1, class);
    }
}

/// Where a run ends, no further run of the same class begins.
pub proof fn lemma_run_end_idempotent(src: Seq<char>, i: nat, class: CharClass)
    ensures
        run_end(src, run_end(src, i, class), class) == run_end(src, i, class),
    decreases src.len() - i,
{
    if i < src.len() && in_class(class, src[i as int]) {
        lemma_run_end_idempotent(src, i + 1, class);
    }
}

/// The scanner reports whitespace exactly where a whitespace character stands.
pub proof fn lemma_scan_whitespace(src: Seq<char>, i: nat)
    ensures
        scan(src, i).kind == TokenKind::Whitespace <==> i < src.len() && whitespace_char(
            src[i as int],
        ),
{
}

/// A string literal ends inside the text, after where it was entered.
pub proof fn lemma_string_end_bounds(src: Seq<char>, i: nat)
    requires
        i <= src.len(),
    ensures
        i <= string_end(src, i).0 <= src.len(),
    decreases src.len() - i,
{
    if i >= src.len() {
    } else if src[i as int] == '"' {
    } else if src[i as int] == '\\' && (char_at(src, i + 1) == '\\' || char_at(src, i + 1)
        == '"') {
        lemma_string_end_bounds(src, i + 2);
    } else {
        lemma_string_end_bounds(src, i + 1);
    }
}

/// Every raw token before the end of the text takes at least one character,
/// and none runs past the end. Only at the end is the token the end of input.
pub proof fn lemma_scan_bounds(src: Seq<char>, i: nat)
    requires
        i <= src.len(),
    ensures
        i < src.len() ==> i < scan(src, i).end <= src.len(),
        i < src.len() ==> scan(src, i).kind != TokenKind::EOF,
        i == src.len() ==> scan(src, i) == (Scanned { kind: TokenKind::EOF, end: i }),
{
    if i < src.len() {
        lemma_run_end_bounds(src, i + 1, CharClass::Whitespace);
        lemma_run_end_bounds(src, i + 1, CharClass::Identifier);
        lemma_run_end_bounds(src, i + 1, CharClass::Digit);
        let digits = run_end(src, i + 1, CharClass::Digit);
        if digits < src.len() {
            lemma_run_end_bounds(src, digits + 1, CharClass::Digit);
        }
        lemma_string_end_bounds(src, i + 1);
    }
}

impl Lexer {
    /// Scans one raw token and starts the next one after it. At the end of
    /// the text the token is the end of input, of length zero.
    pub fn next_token(&mut self) -> (token: Token)
        requires
            old(self).wf(),
        ensures
            final(self).wf(),
            final(self).source() == old(self).source(),
            token.kind == scan(old(self).source(), old(self).offset()).kind,
            final(self).offset() == scan(old(self).source(), old(self).offset()).end,
            old(self).offset() < old(self).source().len() ==> final(self).token_start() == final(self).offset() && token.length == byte_len(
                old(self).source().subrange(
                    old(self).token_start() as int,
                    final(self).offset() as int,
                ),
            ),
            old(self).offset() >= old(self).source().len() ==> final(self).token_start() == old(self).token_start() && token.length == 0,
    {
        proof {
            old(self).lemma_bounds();
        }
        let c = match self.take() {
            Some(c) => c,
            None => {
                return Token::new(TokenKind::EOF, 0);
            },
        };
        let kind = if is_whitespace(c) {
            self.whitespace()
        } else if is_identifier_start(c) {
            self.identifier()
        } else if c == '.' {
            if is_ascii_digit(self.peek_first()) {
                self.digits();
                TokenKind::Literal { kind: LiteralKind::Float }
            } else {
                TokenKind::Dot
            }
        } else if is_ascii_digit(c) {
            self.digits();
            if self.peek_first() == '.' && !is_identifier_start(self.peek_second()) {
                self.take();
                self.digits();
                TokenKind::Literal { kind: LiteralKind::Float }
            } else {
                TokenKind::Literal { kind: LiteralKind::Int }
            }
        } else if c == '"' {
            let terminated = self.literal_string();
            TokenKind::Literal { kind: LiteralKind::Str { terminated } }
        } else if c == '\'' {
            let terminated = self.literal_char();
            TokenKind::Literal { kind: LiteralKind::Char { terminated } }
        } else {
            single(c)
        };
        let length = self.tok_length();
        self.set_length();
        Token::new(kind, length)
    }

    /// Skips to the end of a run of whitespace.
    pub fn whitespace(&mut self) -> (kind: TokenKind)
        requires
            old(self).wf(),
        ensures
            final(self).wf(),
            final(self).source() == old(self).source(),
            final(self).token_start() == old(self).token_start(),
            final(self).offset() == run_end(
                old(self).source(),
                old(self).offset(),
                CharClass::Whitespace,
            ),
            kind == TokenKind::Whitespace,
    {
        self.take_while(is_whitespace);
        proof {
            lemma_run_end(
                self.source(),
                old(self).offset(),
                self.offset(),
                CharClass::Whitespace,
            );
        }
        TokenKind::Whitespace
    }

    /// Skips to the end of an identifier.
    pub fn identifier(&mut self) -> (kind: TokenKind)
        requires
            old(self).wf(),
        ensures
            final(self).wf(),
            final(self).source() == old(self).source(),
            final(self).token_start() == old(self).token_start(),
            final(self).offset() == run_end(
                old(self).source(),
                old(self).offset(),
                CharClass::Identifier,
            ),
            kind == TokenKind::Identifier,
    {
        self.take_while(is_identifier_continue);
        proof {
            lemma_run_end(
                self.source(),
                old(self).offset(),
                self.offset(),
                CharClass::Identifier,
            );
        }
        TokenKind::Identifier
    }

    /// Skips to the end of a run of digits and underscores.
    fn digits(&mut self)
        requires
            old(self).wf(),
        ensures
            final(self).wf(),
            final(self).source() == old(self).source(),
            final(self).token_start() == old(self).token_start(),
            final(self).offset() == run_end(
                old(self).source(),
                old(self).offset(),
                CharClass::Digit,
            ),
    {
        self.take_while(is_digit);
        proof {
            lemma_run_end(self.source(), old(self).offset(), self.offset(), CharClass::Digit);
        }
    }

    /// Skips through a string literal whose opening quote was consumed, and
    /// says whether its closing quote was found.
    pub fn literal_string(&mut self) -> (terminated: bool)
        requires
            old(self).wf(),
        ensures
            final(self).wf(),
            final(self).source() == old(self).source(),
            final(self).token_start() == old(self).token_start(),
            (final(self).offset(), terminated) == string_end(
                old(self).source(),
                old(self).offset(),
            ),
    {
        proof {
            old(self).lemma_bounds();
        }
        loop
            invariant
                self.wf(),
                self.source() == old(self).source(),
                self.token_start() == old(self).token_start(),
                old(self).offset() <= self.offset() <= self.source().len(),
                string_end(self.source(), self.offset()) == string_end(
                    old(self).source(),
                    old(self).offset(),
                ),
            decreases self.source().len() - self.offset(),
        {
            proof {
                self.lemma_bounds();
            }
            match self.take() {
                None => {
                    return false;
                },
                Some(c) => {
                    if c == '"' {
                        return true;
                    }
                    if c == '\\' && (self.peek_first() == '\\' || self.peek_first() == '"') {
                        self.take();
                    }
                },
            }
        }
    }

    /// Skips through a character literal whose opening quote was consumed, and
    /// says whether it is well shaped.
    pub fn literal_char(&mut self) -> (terminated: bool)
        requires
            old(self).wf(),
        ensures
            final(self).wf(),
            final(self).source() == old(self).source(),
            final(self).token_start() == old(self).token_start(),
            (final(self).offset(), terminated) == char_end(old(self).source(), old(self).offset()),
    {
        proof {
            old(self).lemma_bounds();
        }
        match self.take() {
            None => false,
            Some(c) => {
                if c == '\'' {
                    return false;
                }
                if c == '\\' {
                    self.take();
                }
                if self.peek_first() == '\'' {
                    self.take();
                    return true;
                }
                false
            },
        }
    }
}

/// The kind of the token that the single character `c` makes.
fn single(c: char) -> (kind: TokenKind)
    ensures
        kind == single_kind(c),
{
    if c == ';' {
        TokenKind::Semi
    } else if c == ':' {
        TokenKind::Colon
    } else if c == ',' {
        TokenKind::Comma
    } else if c == '(' {
        TokenKind::OpenParen
    } else if c == ')' {
        TokenKind::CloseParen
    } else if c == '{' {
        TokenKind::OpenBrace
    } else if c == '}' {
        TokenKind::CloseBrace
    } else if c == '[' {
        TokenKind::OpenBracket
    } else if c == ']' {
        TokenKind::CloseBracket
    } else if c == '\\' {
        TokenKind::BSlash
    } else if c == '=' {
        TokenKind::Eq
    } else if c == '<' {
        TokenKind::Lt
    } else if c == '>' {
        TokenKind::Gt
    } else if c == '|' {
        TokenKind::Pipe
    } else if c == '&' {
        TokenKind::And
    } else if c == '^' {
        TokenKind::Caret
    } else if c == '+' {
        TokenKind::Plus
    } else if c == '-' {
        TokenKind::Minus
    } else if c == '*' {
        TokenKind::Star
    } else if c == '/' {
        TokenKind::FSlash
    } else if c == '%' {
        TokenKind::Percent
    } else if c == '!' {
        TokenKind::Bang
    } else if c == '~' {
        TokenKind::Tilde
    } else {
        TokenKind::Unknown
    }
}

} // verus!
