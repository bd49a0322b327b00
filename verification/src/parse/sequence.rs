//! Parenthesized expressions, tuples and lists.
use crate::ast::token::TokenKind;
use crate::ast::{
    expression_views, lemma_push_expression, Expression, ExpressionView, List, LitKind,
    LiteralExpression, LiteralView, Tuple,
};
use crate::parse::grammar::{
    after, closing, done, elements_rest, expect, expr_at, failed, group_outcomes,
    lemma_after_after, lemma_errors_assoc, list_at, paren_at, ErrorView,
};
use crate::parse::{ParseError, Parser};
use vstd::prelude::*;

verus! {

impl Parser {
    /// From a `(` on: an expression in parentheses, which stands for itself,
    /// or, where a comma follows the first expression, a tuple.
    pub fn parse_paren(&mut self) -> (r: Result<Expression, ParseError>)
        requires
            old(self).wf(),
            old(self).lexed().kind(old(self).pos()) == TokenKind::OpenParen,
        ensures
            old(self).yields(*final(self), r, paren_at(old(self).lexed(), old(self).pos())),
            final(self).pos() > old(self).pos(),
        decreases old(self).lexed().rest(old(self).pos()), 4nat, 0nat,
    {
        broadcast use group_outcomes;

        reveal(paren_at);
        reveal(expr_at);
        reveal(elements_rest);
        proof {
            self.lemma_lexed();
        }
        self.bump();
        let inner = match self.parse_expr(0) {
            Ok(inner) => inner,
            Err(error) => {
                return Err(error);
            },
        };
        if self.bump_check(TokenKind::Comma) {
            let mut items: Vec<Expression> = Vec::new();
            proof {
                lemma_push_expression(items@, inner);
                assert(expression_views(items@) =~= Seq::<ExpressionView>::empty());
            }
            items.push(inner);
            let items = match self.parse_elements(TokenKind::CloseParen, items) {
                Ok(items) => items,
                Err(error) => {
                    return Err(error);
                },
            };
            self.bump_check(TokenKind::Comma);
            match self.bump_expect(TokenKind::CloseParen) {
                Ok(_) => {
                    let ghost views = expression_views(items@);
                    let literal = LiteralExpression { kind: LitKind::Tuple(Tuple(items)) };
                    assert(literal.model() == LiteralView::Tuple(views));
                    Ok(Expression::Literal(literal))
                },
                Err(error) => Err(error),
            }
        } else {
            match self.bump_expect(TokenKind::CloseParen) {
                Ok(_) => Ok(inner),
                Err(error) => Err(error),
            }
        }
    }

    /// A list literal, from its `[` on.
    pub fn parse_list(&mut self) -> (r: Result<Expression, ParseError>)
        requires
            old(self).wf(),
            old(self).lexed().kind(old(self).pos()) == TokenKind::OpenBracket,
        ensures
            old(self).yields(*final(self), r, list_at(old(self).lexed(), old(self).pos())),
            final(self).pos() > old(self).pos(),
        decreases old(self).lexed().rest(old(self).pos()), 4nat, 0nat,
    {
        broadcast use group_outcomes;

        reveal(list_at);
        reveal(elements_rest);
        proof {
            self.lemma_lexed();
        }
        self.bump();
        let items: Vec<Expression> = Vec::new();
        proof {
            assert(expression_views(items@) =~= Seq::<ExpressionView>::empty());
        }
        let items = match self.parse_elements(TokenKind::CloseBracket, items) {
            Ok(items) => items,
            Err(error) => {
                return Err(error);
            },
        };
        self.bump_check(TokenKind::Comma);
        match self.bump_expect(TokenKind::CloseBracket) {
            Ok(_) => {
                let ghost views = expression_views(items@);
                let literal = LiteralExpression { kind: LitKind::List(List(items)) };
                assert(literal.model() == LiteralView::List(views));
                Ok(Expression::Literal(literal))
            },
            Err(error) => Err(error),
        }
    }

    /// One expression of a tuple or list, with the comma before it where it
    /// is not the first. Answers whether more may follow; a list ends where
    /// an expression fails, and a tuple fails with it.
    fn parse_element(&mut self, close: TokenKind, first: bool, items: &mut Vec<Expression>) -> (r: (
        Result<bool, ParseError>,
        Ghost<Seq<ErrorView>>,
    ))
        requires
            old(self).wf(),
            close != TokenKind::EOF,
            !(old(self).lexed().kind(old(self).pos()) == close || (old(self).lexed().peek(
                old(self).pos(),
                1,
            ).kind == close && !first)),
        ensures
            old(self).moved(
                *final(self),
                (final(self).pos() - old(self).pos()) as nat,
                r.1@,
            ),
            final(self).pos() >= old(self).pos(),
            r.0 is Err ==> elements_rest(
                old(self).lexed(),
                old(self).pos(),
                close,
                first,
                expression_views(old(items)@),
            ) == failed::<Seq<ExpressionView>>(
                r.0->Err_0.model(),
                (final(self).pos() - old(self).pos()) as nat,
                r.1@,
            ),
            r.0 == Ok::<bool, ParseError>(false) ==> elements_rest(
                old(self).lexed(),
                old(self).pos(),
                close,
                first,
                expression_views(old(items)@),
            ) == done(
                expression_views(final(items)@),
                (final(self).pos() - old(self).pos()) as nat,
                r.1@,
            ),
            r.0 == Ok::<bool, ParseError>(true) ==> elements_rest(
                old(self).lexed(),
                old(self).pos(),
                close,
                first,
                expression_views(old(items)@),
            ) == after(
                (final(self).pos() - old(self).pos()) as nat,
                r.1@,
                elements_rest(
                    old(self).lexed(),
                    final(self).pos(),
                    close,
                    false,
                    expression_views(final(items)@),
                ),
            ),
            r.0 == Ok::<bool, ParseError>(true) ==> final(self).pos() > old(self).pos(),
        decreases old(self).lexed().rest(old(self).pos()), 9nat, 1nat,
    {
        broadcast use group_outcomes;

        reveal(elements_rest);
        reveal(expr_at);
        let ghost c = self.lexed();
        let ghost p = self.pos();
        proof {
            self.lemma_lexed();
        }
        let ghost mut noted: Seq<ErrorView> = Seq::empty();
        if !first {
            let separated = self.bump_recover(TokenKind::Comma);
            proof {
                if !separated {
                    noted = seq![expect(c, p, TokenKind::Comma).error()];
                }
            }
        }
        let ghost here = self.pos();
        let ghost item_out = expr_at(c, here, 0);
        match self.parse_expr(0) {
            Ok(item) => {
                proof {
                    lemma_push_expression(items@, item);
                }
                items.push(item);
                (Ok(true), Ghost(noted + item_out.errors))
            },
            Err(error) => {
                if close == TokenKind::CloseParen {
                    return (Err(error), Ghost(noted + item_out.errors));
                }
                self.recover_error(error);
                (Ok(false), Ghost((noted + item_out.errors).push(error.model())))
            },
        }
    }

    /// The expressions of a tuple or list after those of `items`, up to where
    /// the closing delimiter stands, with or without a comma before it.
    pub fn parse_elements(&mut self, close: TokenKind, items: Vec<Expression>) -> (r: Result<
        Vec<Expression>,
        ParseError,
    >)
        requires
            old(self).wf(),
            close != TokenKind::EOF,
        ensures
            old(self).moved(
                *final(self),
                elements_rest(
                    old(self).lexed(),
                    old(self).pos(),
                    close,
                    true,
                    expression_views(items@),
                ).used,
                elements_rest(
                    old(self).lexed(),
                    old(self).pos(),
                    close,
                    true,
                    expression_views(items@),
                ).errors,
            ),
            r is Ok ==> elements_rest(
                old(self).lexed(),
                old(self).pos(),
                close,
                true,
                expression_views(items@),
            ).result == Ok::<Seq<ExpressionView>, ErrorView>(expression_views(r->Ok_0@)),
            r is Err ==> elements_rest(
                old(self).lexed(),
                old(self).pos(),
                close,
                true,
                expression_views(items@),
            ).result == Err::<Seq<ExpressionView>, ErrorView>(r->Err_0.model()),
        decreases old(self).lexed().rest(old(self).pos()), 9nat, 2nat,
    {
        broadcast use group_outcomes;

        let ghost c = self.lexed();
        let ghost origin = self.pos();
        let ghost e0 = self.recorded();
        let ghost total = elements_rest(c, origin, close, true, expression_views(items@));
        let ghost mut noted: Seq<ErrorView> = Seq::empty();
        let mut elements = items;
        let mut first = true;
        proof {
            self.lemma_lexed();
        }
        loop
            invariant
                self.wf(),
                self.lexed() == c,
                c == old(self).lexed(),
                origin == old(self).pos(),
                e0 == old(self).recorded(),
                close != TokenKind::EOF,
                origin <= self.pos() < c.tokens.len(),
                self.recorded() == e0 + noted,
                total == elements_rest(c, origin, close, true, expression_views(items@)),
                total == after(
                    (self.pos() - origin) as nat,
                    noted,
                    elements_rest(c, self.pos(), close, first, expression_views(elements@)),
                ),
            ensures
                self.recorded() == e0 + total.errors,
                self.pos() == origin + total.used,
                total.result == Ok::<Seq<ExpressionView>, ErrorView>(expression_views(elements@)),
            decreases c.rest(self.pos()), (if first {
                1nat
            } else {
                0nat
            }),
        {
            reveal(elements_rest);
            let ghost p = self.pos();
            let ghost whole = elements_rest(c, p, close, first, expression_views(elements@));
            if self.peek(0).kind == close || (self.peek(1).kind == close && !first) {
                break ;
            }
            let (step, Ghost(errors)) = self.parse_element(close, first, &mut elements);
            proof {
                lemma_errors_assoc(e0, noted, errors);
            }
            match step {
                Err(error) => {
                    assert(total == failed::<Seq<ExpressionView>>(
                        error.model(),
                        (self.pos() - origin) as nat,
                        noted + errors,
                    ));
                    return Err(error);
                },
                Ok(more) => {
                    if !more {
                        assert(total == done(
                            expression_views(elements@),
                            (self.pos() - origin) as nat,
                            noted + errors,
                        ));
                        return Ok(elements);
                    }
                },
            }
            first = false;
            proof {
                let next = elements_rest(c, self.pos(), close, false, expression_views(elements@));
                assert(whole == after((self.pos() - p) as nat, errors, next));
                lemma_after_after((p - origin) as nat, noted, (self.pos() - p) as nat, errors, next);
                noted = noted + errors;
                self.lemma_lexed();
            }
        }
        Ok(elements)
    }
}

} // verus!
