//! Expressions by precedence climbing: a prefix term and the binary
//! operations that follow it.
use crate::parse::literal::{binop_tok_to_ast, infix_binding_power, literal_value, prefix_binding_power, unop_tok_to_ast};
use crate::ast::token::{OpKind, TokenKind};
use crate::ast::{BinaryExpression, Expression, ExpressionView, IdentExpression, UnaryExpression};
use crate::parse::grammar::{
    after, binary_operator, block_at, closure_at, expr_at, failed, group_outcomes, if_at, infix_at,
    infix_power, lemma_after_after, lemma_errors_assoc, list_at, paren_at, prefix_at, ErrorView,
};
use crate::parse::{ParseError, Parser};
use vstd::prelude::*;

verus! {

impl Parser {
    /// An expression whose operators bind at least as tightly as `min_bp`.
    pub fn parse_expr(&mut self, min_bp: u8) -> (r: Result<Expression, ParseError>)
        requires
            old(self).wf(),
        ensures
            old(self).yields(*final(self), r, expr_at(old(self).lexed(), old(self).pos(), min_bp)),
            r is Ok ==> final(self).pos() > old(self).pos(),
        decreases old(self).lexed().rest(old(self).pos()), 6nat, 0nat,
    {
        broadcast use group_outcomes;

        reveal(expr_at);
        reveal(prefix_at);
        reveal(infix_at);
        proof {
            self.lemma_lexed();
        }
        let head = match self.parse_prefix() {
            Ok(head) => head,
            Err(error) => {
                return Err(error);
            },
        };
        self.parse_infix(min_bp, head)
    }

    /// A prefix term: a literal, an identifier, a parenthesized expression or
    /// tuple, a list, a block, an `if`, a closure, or a prefix operation.
    pub fn parse_prefix(&mut self) -> (r: Result<Expression, ParseError>)
        requires
            old(self).wf(),
        ensures
            old(self).yields(*final(self), r, prefix_at(old(self).lexed(), old(self).pos())),
            r is Ok ==> final(self).pos() > old(self).pos(),
        decreases old(self).lexed().rest(old(self).pos()), 5nat, 0nat,
    {
        broadcast use group_outcomes;

        reveal(prefix_at);
        reveal(closure_at);
        reveal(if_at);
        reveal(paren_at);
        reveal(list_at);
        reveal(block_at);
        reveal(expr_at);
        proof {
            self.lemma_lexed();
        }
        let token = self.peek(0);
        match token.kind {
            TokenKind::Literal { kind } => {
                let span = self.stream.span(self.stream.pos);
                match literal_value(kind, &self.stream.chars, span.0, span.1) {
                    Some(literal) => {
                        self.bump();
                        Ok(Expression::Literal(literal))
                    },
                    None => Err(
                        ParseError::ExpectedNode {
                            expected: String::from_str("literal"),
                            found: token,
                        },
                    ),
                }
            },
            TokenKind::BSlash => match self.parse_closure() {
                Ok(closure) => Ok(Expression::Closure(Box::new(closure))),
                Err(error) => Err(error),
            },
            TokenKind::If => match self.parse_if() {
                Ok(item) => Ok(Expression::If(Box::new(item))),
                Err(error) => Err(error),
            },
            TokenKind::OpenParen => self.parse_paren(),
            TokenKind::OpenBracket => self.parse_list(),
            TokenKind::OpenBrace => match self.parse_block() {
                Ok(block) => Ok(Expression::Block(Box::new(block))),
                Err(error) => Err(error),
            },
            TokenKind::Identifier => {
                let name = self.lexeme();
                self.bump();
                Ok(Expression::Identifier(IdentExpression { name }))
            },
            TokenKind::Bang | TokenKind::Op { .. } => {
                self.bump();
                let op = match unop_tok_to_ast(token.kind) {
                    Some(op) => op,
                    None => {
                        return Err(
                            ParseError::ExpectedAlternatives {
                                expected: vec![
                                    TokenKind::Bang,
                                    TokenKind::Op { kind: OpKind::Tilde },
                                    TokenKind::Op { kind: OpKind::Plus },
                                    TokenKind::Op { kind: OpKind::Minus },
                                ],
                                found: token,
                            },
                        );
                    },
                };
                let power = prefix_binding_power(op);
                match self.parse_expr(power.1) {
                    Ok(rhs) => Ok(Expression::Unary(Box::new(UnaryExpression { rhs, op }))),
                    Err(error) => Err(error),
                }
            },
            _ => Err(
                ParseError::ExpectedNode { expected: String::from_str("expression"), found: token },
            ),
        }
    }

    /// The binary operations that follow the expression `lhs`, as far as
    /// their operators bind at least as tightly as `min_bp`. Where the right
    /// side of an operator fails, the cursor goes back to the operator.
    pub fn parse_infix(&mut self, min_bp: u8, lhs: Expression) -> (r: Result<
        Expression,
        ParseError,
    >)
        requires
            old(self).wf(),
        ensures
            old(self).yields(
                *final(self),
                r,
                infix_at(old(self).lexed(), old(self).pos(), min_bp, lhs.model()),
            ),
        decreases old(self).lexed().rest(old(self).pos()), 5nat, 0nat,
    {
        broadcast use group_outcomes;

        let ghost c = self.lexed();
        let ghost origin = self.pos();
        let ghost e0 = self.recorded();
        let ghost total = infix_at(c, origin, min_bp, lhs.model());
        let ghost mut noted: Seq<ErrorView> = Seq::empty();
        let mut tree = lhs;
        proof {
            self.lemma_lexed();
        }
        loop
            invariant
                self.wf(),
                self.lexed() == c,
                c == old(self).lexed(),
                origin == old(self).pos(),
                e0 == old(self).recorded(),
                origin <= self.pos() < c.tokens.len(),
                self.recorded() == e0 + noted,
                total == infix_at(c, origin, min_bp, lhs.model()),
                total == after(
                    (self.pos() - origin) as nat,
                    noted,
                    infix_at(c, self.pos(), min_bp, tree.model()),
                ),
            ensures
                binary_operator(c.kind(self.pos())) is None || infix_power(
                    binary_operator(c.kind(self.pos()))->0,
                ).0 < min_bp,
            decreases c.rest(self.pos()),
        {
            reveal(infix_at);
            reveal(expr_at);
            let ghost p = self.pos();
            let ghost whole = infix_at(c, p, min_bp, tree.model());
            let token = self.peek(0);
            let op = match binop_tok_to_ast(token.kind) {
                Some(op) => op,
                None => {
                    break ;
                },
            };
            let power = infix_binding_power(op);
            if power.0 < min_bp {
                break ;
            }
            let mark = self.mark();
            self.bump();
            let ghost rhs_out = expr_at(c, p + 1, power.1);
            match self.parse_expr(power.1) {
                Ok(rhs) => {
                    tree = Expression::Binary(Box::new(BinaryExpression { lhs: tree, rhs, op }));
                    proof {
                        let next = infix_at(c, self.pos(), min_bp, tree.model());
                        assert(whole == after(1 + rhs_out.used, rhs_out.errors, next));
                        lemma_after_after(
                            (p - origin) as nat,
                            noted,
                            1 + rhs_out.used,
                            rhs_out.errors,
                            next,
                        );
                        noted = noted + rhs_out.errors;
                        self.lemma_lexed();
                    }
                },
                Err(error) => {
                    self.reset(mark);
                    proof {
                        assert(whole == failed::<ExpressionView>(
                            error.model(),
                            0,
                            rhs_out.errors,
                        ));
                        lemma_errors_assoc(e0, noted, rhs_out.errors);
                    }
                    return Err(error);
                },
            }
        }
        reveal(infix_at);
        Ok(tree)
    }
}

} // verus!
