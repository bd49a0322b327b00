//! The parser: a cursor over the token stream, and on it the productions of
//! the grammar.
pub mod block;
pub mod expression;
pub mod grammar;
pub mod literal;
pub mod progress;
pub mod sequence;
pub mod statement;
pub mod stream;
pub mod types;

use crate::ast::token::{Token, TokenKind};
use crate::parse::grammar::{expect, name_at, ErrorView, Lexed, Outcome};
use crate::parse::stream::{lexed_text, TokenStream};
use vstd::prelude::*;

verus! {

/// Why a production could not go on.
#[allow(inconsistent_fields)]
#[derive(Debug, PartialEq, Eq)]
pub enum ParseError {
    /// A token of one kind was needed.
    ExpectedSingle { expected: TokenKind, found: Token },
    /// A token of one of several kinds was needed.
    ExpectedAlternatives { expected: Vec<TokenKind>, found: Token },
    /// A construct was needed, named by `expected`.
    ExpectedNode { expected: String, found: Token },
    /// An expression at the top level lacks its `;`.
    OuterExpression,
}

impl ParseError {
    pub open spec fn model(&self) -> ErrorView {
        match self {
            ParseError::ExpectedSingle { expected, found } => ErrorView::ExpectedSingle {
                expected: *expected,
                found: *found,
            },
            ParseError::ExpectedAlternatives { expected, found } => ErrorView::ExpectedAlternatives {
                expected: expected@,
                found: *found,
            },
            ParseError::ExpectedNode { expected, found } => ErrorView::ExpectedNode {
                expected: expected@,
                found: *found,
            },
            ParseError::OuterExpression => ErrorView::OuterExpression,
        }
    }
}

impl DeepView for ParseError {
    type V = ErrorView;

    open spec fn deep_view(&self) -> ErrorView {
        self.model()
    }
}

/// The values of a sequence of errors, in order.
pub open spec fn error_views(errors: Seq<ParseError>) -> Seq<ErrorView> {
    Seq::new(errors.len(), |i: int| errors[i].model())
}

/// The value of a result: that of what it holds.
pub open spec fn abstracted<T: DeepView>(r: Result<T, ParseError>) -> Result<T::V, ErrorView> {
    match r {
        Ok(value) => Ok(value.deep_view()),
        Err(error) => Err(error.model()),
    }
}

/// A cursor over the tokens of one source text, and the diagnostics recorded
/// so far.
pub struct Parser {
    pub stream: TokenStream,
    pub errors: Vec<ParseError>,
}

impl Parser {
    /// The stream is well formed and the cursor stands on one of its tokens.
    pub open spec fn wf(&self) -> bool {
        &&& self.stream.wf()
        &&& self.stream.pos < self.stream.lexed().tokens.len()
    }

    /// The tokens that the cursor moves over, with their texts.
    pub open spec fn lexed(&self) -> Lexed {
        self.stream.lexed()
    }

    /// Index of the token under the cursor.
    pub open spec fn pos(&self) -> nat {
        self.stream.pos as nat
    }

    /// The diagnostics recorded so far.
    pub open spec fn recorded(&self) -> Seq<ErrorView> {
        error_views(self.errors@)
    }

    /// Whether `post` is this parser moved on by `used` tokens, with the
    /// diagnostics `errors` added.
    pub open spec fn moved(&self, post: Parser, used: nat, errors: Seq<ErrorView>) -> bool {
        &&& post.wf()
        &&& post.lexed() == self.lexed()
        &&& post.pos() == self.pos() + used
        &&& post.recorded() == self.recorded() + errors
    }

    /// Whether a production that began at this parser, ended at `post` and
    /// returned `r` did what `out` says.
    pub open spec fn yields<T: DeepView>(
        &self,
        post: Parser,
        r: Result<T, ParseError>,
        out: Outcome<T::V>,
    ) -> bool {
        &&& self.moved(post, out.used, out.errors)
        &&& abstracted(r) == out.result
    }

    /// The tokens of a well-formed parser are well formed, and the cursor
    /// stands on the last of them exactly where it stands on the end of input.
    pub proof fn lemma_lexed(&self)
        requires
            self.wf(),
        ensures
            self.lexed().wf(),
            self.pos() < self.lexed().tokens.len(),
            self.lexed().kind(self.pos()) == TokenKind::EOF <==> self.pos() + 1
                == self.lexed().tokens.len(),
    {
        self.stream.lemma_shape();
    }

    /// A parser at the first token of `input`, with no diagnostics.
    pub fn new(input: &str) -> (parser: Parser)
        ensures
            parser.wf(),
            parser.lexed() == lexed_text(input@),
            parser.pos() == 0,
            parser.recorded() == Seq::<ErrorView>::empty(),
    {
        let stream = TokenStream::new(input);
        proof {
            stream.lemma_shape();
        }
        let parser = Parser { stream, errors: Vec::new() };
        assert(parser.recorded() =~= Seq::<ErrorView>::empty());
        parser
    }

    /// The token `dist` places ahead of the cursor; past the end of input,
    /// the end of input. Nothing moves.
    pub fn peek(&self, dist: usize) -> (token: Token)
        requires
            self.wf(),
        ensures
            token == self.lexed().peek(self.pos(), dist as nat),
    {
        proof {
            self.stream.lemma_shape();
        }
        let len = self.stream.len();
        if dist < len - self.stream.pos {
            self.stream.get(self.stream.pos + dist)
        } else {
            self.stream.get(len - 1)
        }
    }

    /// Whether the token under the cursor is of kind `kind`.
    pub fn check(&self, kind: TokenKind) -> (b: bool)
        requires
            self.wf(),
        ensures
            b == (self.lexed().kind(self.pos()) == kind),
    {
        self.stream.get(self.stream.pos).kind == kind
    }

    /// Returns the token under the cursor and moves past it. The cursor never
    /// moves past the end of input.
    pub fn take(&mut self) -> (token: Token)
        requires
            old(self).wf(),
        ensures
            token == old(self).lexed().peek(old(self).pos(), 0),
            old(self).moved(
                *final(self),
                if token.kind == TokenKind::EOF {
                    0nat
                } else {
                    1nat
                },
                Seq::empty(),
            ),
    {
        proof {
            self.lemma_lexed();
        }
        let token = self.stream.get(self.stream.pos);
        if token.kind != TokenKind::EOF {
            let _ = self.stream.next_token();
        }
        proof {
            assert(self.recorded() =~= old(self).recorded() + Seq::<ErrorView>::empty());
        }
        token
    }

    /// Moves past the token under the cursor.
    pub fn bump(&mut self)
        requires
            old(self).wf(),
        ensures
            old(self).moved(
                *final(self),
                if old(self).lexed().kind(old(self).pos()) == TokenKind::EOF {
                    0nat
                } else {
                    1nat
                },
                Seq::empty(),
            ),
    {
        let _ = self.take();
    }

    /// Takes the token under the cursor where it is of kind `kind`.
    pub fn take_check(&mut self, kind: TokenKind) -> (token: Option<Token>)
        requires
            old(self).wf(),
        ensures
            token == expect(old(self).lexed(), old(self).pos(), kind).result.ok(),
            old(self).moved(
                *final(self),
                expect(old(self).lexed(), old(self).pos(), kind).used,
                Seq::empty(),
            ),
    {
        if self.check(kind) {
            return Some(self.take());
        }
        proof {
            assert(self.recorded() =~= old(self).recorded() + Seq::<ErrorView>::empty());
        }
        None
    }

    /// Takes the token under the cursor where it is of kind `kind`, and else
    /// fails without moving.
    pub fn take_expect(&mut self, kind: TokenKind) -> (r: Result<Token, ParseError>)
        requires
            old(self).wf(),
        ensures
            old(self).yields(*final(self), r, expect(old(self).lexed(), old(self).pos(), kind)),
    {
        if self.check(kind) {
            return Ok(self.take());
        }
        proof {
            assert(self.recorded() =~= old(self).recorded() + Seq::<ErrorView>::empty());
        }
        Err(ParseError::ExpectedSingle { expected: kind, found: self.peek(0) })
    }

    /// Moves past the token under the cursor where it is of kind `kind`, and
    /// says whether it did.
    pub fn bump_check(&mut self, kind: TokenKind) -> (b: bool)
        requires
            old(self).wf(),
        ensures
            b == (old(self).lexed().kind(old(self).pos()) == kind),
            old(self).moved(
                *final(self),
                expect(old(self).lexed(), old(self).pos(), kind).used,
                Seq::empty(),
            ),
    {
        if self.check(kind) {
            self.bump();
            return true;
        }
        proof {
            assert(self.recorded() =~= old(self).recorded() + Seq::<ErrorView>::empty());
        }
        false
    }

    /// Moves past the token under the cursor where it is of kind `kind`, and
    /// else fails without moving.
    pub fn bump_expect(&mut self, kind: TokenKind) -> (r: Result<(), ParseError>)
        requires
            old(self).wf(),
        ensures
            old(self).moved(
                *final(self),
                expect(old(self).lexed(), old(self).pos(), kind).used,
                Seq::empty(),
            ),
            r is Ok <==> expect(old(self).lexed(), old(self).pos(), kind).ok(),
            r is Err ==> r->Err_0.model() == expect(old(self).lexed(), old(self).pos(), kind).error(),
    {
        if self.check(kind) {
            self.bump();
            return Ok(());
        }
        proof {
            assert(self.recorded() =~= old(self).recorded() + Seq::<ErrorView>::empty());
        }
        Err(ParseError::ExpectedSingle { expected: kind, found: self.peek(0) })
    }

    /// Moves on for as long as `predicate` accepts the kind of the token
    /// under the cursor, and stops at the end of input in any case.
    pub fn bump_while<F: Fn(TokenKind) -> bool>(&mut self, predicate: F)
        requires
            old(self).wf(),
            forall|kind: TokenKind| call_requires(predicate, (kind,)),
        ensures
            old(self).moved(*final(self), (final(self).pos() - old(self).pos()) as nat, Seq::empty()),
            old(self).pos() <= final(self).pos(),
            forall|i: int|
                old(self).pos() <= i < final(self).pos() ==> call_ensures(
                    predicate,
                    ((#[trigger] old(self).lexed().tokens[i]).kind,),
                    true,
                ),
            final(self).lexed().kind(final(self).pos()) == TokenKind::EOF || call_ensures(
                predicate,
                (final(self).lexed().kind(final(self).pos()),),
                false,
            ),
    {
        proof {
            assert(self.recorded() =~= old(self).recorded() + Seq::<ErrorView>::empty());
        }
        loop
            invariant
                old(self).moved(*self, (self.pos() - old(self).pos()) as nat, Seq::empty()),
                old(self).wf(),
                old(self).pos() <= self.pos(),
                forall|kind: TokenKind| call_requires(predicate, (kind,)),
                forall|i: int|
                    old(self).pos() <= i < self.pos() ==> call_ensures(
                        predicate,
                        ((#[trigger] old(self).lexed().tokens[i]).kind,),
                        true,
                    ),
            ensures
                self.lexed().kind(self.pos()) == TokenKind::EOF || call_ensures(
                    predicate,
                    (self.lexed().kind(self.pos()),),
                    false,
                ),
            decreases self.lexed().tokens.len() - self.pos(),
        {
            let kind = self.peek(0).kind;
            if kind == TokenKind::EOF {
                break ;
            }
            if !predicate(kind) {
                break ;
            }
            self.bump();
            proof {
                assert(self.recorded() =~= old(self).recorded() + Seq::<ErrorView>::empty());
            }
        }
    }

    /// Records `error` and goes on.
    pub fn recover_error(&mut self, error: ParseError)
        requires
            old(self).wf(),
        ensures
            old(self).moved(*final(self), 0, seq![error.model()]),
    {
        self.errors.push(error);
        proof {
            assert(self.recorded() =~= old(self).recorded() + seq![error.model()]);
        }
    }

    /// Moves past the token under the cursor where it is of kind `kind`;
    /// where it is not, records that, stays, and answers `false`.
    pub fn bump_recover(&mut self, kind: TokenKind) -> (b: bool)
        requires
            old(self).wf(),
        ensures
            b == expect(old(self).lexed(), old(self).pos(), kind).ok(),
            old(self).moved(
                *final(self),
                expect(old(self).lexed(), old(self).pos(), kind).used,
                if b {
                    Seq::empty()
                } else {
                    seq![expect(old(self).lexed(), old(self).pos(), kind).error()]
                },
            ),
    {
        match self.bump_expect(kind) {
            Ok(_) => true,
            Err(error) => {
                self.recover_error(error);
                proof {
                    assert(Seq::<ErrorView>::empty() + seq![error.model()] =~= seq![error.model()]);
                    assert(self.recorded() =~= old(self).recorded() + seq![error.model()]);
                }
                false
            },
        }
    }

    /// The text of the token under the cursor.
    pub fn lexeme(&self) -> (text: String)
        requires
            self.wf(),
        ensures
            text@ == self.lexed().text(self.pos()),
    {
        self.stream.lexeme(self.stream.pos)
    }

    /// The text of the token at index `index` of the stream.
    pub fn get_lexeme(&self, index: usize) -> (text: String)
        requires
            self.wf(),
            index < self.lexed().tokens.len(),
        ensures
            text@ == self.lexed().text(index as nat),
    {
        self.stream.lexeme(index)
    }

    /// Takes the identifier under the cursor and returns its text.
    pub fn take_name(&mut self) -> (r: Result<String, ParseError>)
        requires
            old(self).wf(),
        ensures
            old(self).yields(*final(self), r, name_at(old(self).lexed(), old(self).pos())),
    {
        if self.check(TokenKind::Identifier) {
            let name = self.lexeme();
            self.bump();
            return Ok(name);
        }
        proof {
            assert(self.recorded() =~= old(self).recorded() + Seq::<ErrorView>::empty());
        }
        Err(ParseError::ExpectedSingle { expected: TokenKind::Identifier, found: self.peek(0) })
    }

    /// The position of the cursor, to come back to with `reset`.
    pub fn mark(&self) -> (mark: usize)
        ensures
            mark == self.pos(),
    {
        self.stream.mark()
    }

    /// Moves the cursor to the position `mark`, which `mark` gave.
    pub fn reset(&mut self, mark: usize)
        requires
            old(self).wf(),
            mark < old(self).lexed().tokens.len(),
        ensures
            final(self).wf(),
            final(self).lexed() == old(self).lexed(),
            final(self).pos() == mark,
            final(self).recorded() == old(self).recorded(),
    {
        proof {
            self.lemma_lexed();
        }
        self.stream.reset(mark);
    }
}

} // verus!
