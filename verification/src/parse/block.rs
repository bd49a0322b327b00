//! Blocks and what is built on them: `if` and closures.
use crate::ast::token::{Token, TokenKind};
use crate::ast::{
    lemma_push_statement, statement_views, BlockExpression, ClosureExpression, ElseExpression,
    Expression, IfExpression, Statement, StatementView,
};
use crate::parse::grammar::{
    after, block_at, block_errors, closure_at, done, expr_at, group_outcomes, if_at,
    lemma_after_after, lemma_errors_assoc, missing_semicolon, missing_semicolons, statement_at,
    statements_rest, unterminated, ErrorView,
};
use crate::parse::types::lemma_parameters_deep;
use crate::parse::{ParseError, Parser};
use vstd::prelude::*;

verus! {

/// The token that stands where the `;` of a statement belongs, where the
/// statement is an expression that lacks it.
pub fn end_of_unterminated(statement: &Statement) -> (end: Option<Token>)
    ensures
        end is Some <==> unterminated(statement.model()),
        end is Some ==> (statement.model() matches StatementView::Expression { end_token, .. }
            && end_token == end->0),
{
    match statement {
        Statement::Expression { expr, end_token } => {
            if end_token.kind != TokenKind::Semi {
                Some(*end_token)
            } else {
                None
            }
        },
        _ => None,
    }
}

impl Parser {
    /// `\ '(' Params ')' '->' Type Block`, from the `\` on.
    pub fn parse_closure(&mut self) -> (r: Result<ClosureExpression, ParseError>)
        requires
            old(self).wf(),
            old(self).lexed().kind(old(self).pos()) == TokenKind::BSlash,
        ensures
            old(self).yields(*final(self), r, closure_at(old(self).lexed(), old(self).pos())),
            final(self).pos() > old(self).pos(),
        decreases old(self).lexed().rest(old(self).pos()), 4nat, 0nat,
    {
        broadcast use group_outcomes;

        reveal(closure_at);
        reveal(block_at);
        proof {
            self.lemma_lexed();
        }
        self.bump();
        let arguments = match self.parse_params(TokenKind::OpenParen, TokenKind::CloseParen) {
            Ok(arguments) => arguments,
            Err(error) => {
                return Err(error);
            },
        };
        proof {
            lemma_parameters_deep(arguments);
        }
        match self.bump_expect(TokenKind::RArrow) {
            Ok(_) => {},
            Err(error) => {
                return Err(error);
            },
        }
        let return_type = match self.parse_type() {
            Ok(return_type) => return_type,
            Err(error) => {
                return Err(error);
            },
        };
        let block = match self.parse_block() {
            Ok(block) => block,
            Err(error) => {
                return Err(error);
            },
        };
        Ok(ClosureExpression { arguments, block, return_type })
    }

    /// `if Expression Block (else (if-chain | Block))?`, from the `if` on.
    pub fn parse_if(&mut self) -> (r: Result<IfExpression, ParseError>)
        requires
            old(self).wf(),
            old(self).lexed().kind(old(self).pos()) == TokenKind::If,
        ensures
            old(self).yields(*final(self), r, if_at(old(self).lexed(), old(self).pos())),
            final(self).pos() > old(self).pos(),
        decreases old(self).lexed().rest(old(self).pos()), 4nat, 0nat,
    {
        broadcast use group_outcomes;

        reveal(if_at);
        reveal(expr_at);
        reveal(block_at);
        proof {
            self.lemma_lexed();
        }
        self.bump();
        let condition = match self.parse_expr(0) {
            Ok(condition) => condition,
            Err(error) => {
                return Err(error);
            },
        };
        let body = match self.parse_block() {
            Ok(body) => body,
            Err(error) => {
                return Err(error);
            },
        };
        if !self.bump_check(TokenKind::Else) {
            return Ok(IfExpression { condition, body, else_body: None });
        }
        if self.check(TokenKind::If) {
            match self.parse_if() {
                Ok(other) => Ok(
                    IfExpression {
                        condition,
                        body,
                        else_body: Some(Box::new(ElseExpression::ElseIf(other))),
                    },
                ),
                Err(error) => Err(error),
            }
        } else {
            match self.parse_block() {
                Ok(other) => Ok(
                    IfExpression {
                        condition,
                        body,
                        else_body: Some(Box::new(ElseExpression::Else(other))),
                    },
                ),
                Err(error) => Err(error),
            }
        }
    }

    /// `'{' Statement* '}'`. Every expression but the last needs its `;`, and
    /// a last expression without it becomes the value of the block.
    pub fn parse_block(&mut self) -> (r: Result<BlockExpression, ParseError>)
        requires
            old(self).wf(),
        ensures
            old(self).yields(*final(self), r, block_at(old(self).lexed(), old(self).pos())),
            r is Ok ==> final(self).pos() > old(self).pos(),
        decreases old(self).lexed().rest(old(self).pos()), 4nat, 0nat,
    {
        broadcast use group_outcomes;

        reveal(block_at);
        reveal(statements_rest);
        proof {
            self.lemma_lexed();
        }
        match self.bump_expect(TokenKind::OpenBrace) {
            Ok(_) => {},
            Err(error) => {
                return Err(error);
            },
        }
        let mut statements = self.parse_statements();
        match self.bump_expect(TokenKind::CloseBrace) {
            Ok(_) => {},
            Err(error) => {
                return Err(error);
            },
        }
        self.validate_statements(&statements);
        let ghost views = statement_views(statements@);
        let n = statements.len();
        let promote = n > 0 && end_of_unterminated(&statements[n - 1]).is_some();
        let expression = if promote {
            proof {
                assert(statement_views(statements@.drop_last()) =~= views.drop_last());
            }
            match statements.pop() {
                Some(Statement::Expression { expr, end_token }) => Some(expr),
                _ => unreached(),
            }
        } else {
            None
        };
        Ok(BlockExpression { statements, expression })
    }

    /// The statements of a block, up to the `}`, the end of input, or a
    /// statement that fails, which is recorded.
    pub fn parse_statements(&mut self) -> (statements: Vec<Statement>)
        requires
            old(self).wf(),
        ensures
            old(self).moved(
                *final(self),
                statements_rest(old(self).lexed(), old(self).pos(), Seq::empty()).used,
                statements_rest(old(self).lexed(), old(self).pos(), Seq::empty()).errors,
            ),
            statements_rest(old(self).lexed(), old(self).pos(), Seq::empty()).result == Ok::<
                Seq<StatementView>,
                ErrorView,
            >(statement_views(statements@)),
        decreases old(self).lexed().rest(old(self).pos()), 9nat, 0nat,
    {
        broadcast use group_outcomes;

        let ghost c = self.lexed();
        let ghost origin = self.pos();
        let ghost e0 = self.recorded();
        let ghost total = statements_rest(c, origin, Seq::empty());
        let ghost mut noted: Seq<ErrorView> = Seq::empty();
        let mut statements: Vec<Statement> = Vec::new();
        proof {
            self.lemma_lexed();
            assert(statement_views(statements@) =~= Seq::<StatementView>::empty());
        }
        loop
            invariant_except_break
                self.recorded() == e0 + noted,
                total == after(
                    (self.pos() - origin) as nat,
                    noted,
                    statements_rest(c, self.pos(), statement_views(statements@)),
                ),
            invariant
                self.wf(),
                self.lexed() == c,
                c == old(self).lexed(),
                origin == old(self).pos(),
                e0 == old(self).recorded(),
                origin <= self.pos() < c.tokens.len(),
                total == statements_rest(c, origin, Seq::empty()),
            ensures
                self.wf(),
                self.lexed() == c,
                self.recorded() == e0 + total.errors,
                self.pos() == origin + total.used,
                total.result == Ok::<Seq<StatementView>, ErrorView>(statement_views(statements@)),
            decreases c.rest(self.pos()),
        {
            reveal(statements_rest);
            reveal(statement_at);
            let ghost p = self.pos();
            let ghost whole = statements_rest(c, p, statement_views(statements@));
            if self.check(TokenKind::CloseBrace) {
                break ;
            }
            let ghost item_out = statement_at(c, p);
            match self.parse_statement() {
                Ok(Statement::EOF) => {
                    proof {
                        assert(whole == done(
                            statement_views(statements@),
                            item_out.used,
                            item_out.errors,
                        ));
                        lemma_errors_assoc(e0, noted, item_out.errors);
                    }
                    break ;
                },
                Ok(item) => {
                    proof {
                        lemma_push_statement(statements@, item);
                    }
                    statements.push(item);
                    proof {
                        let next = statements_rest(c, self.pos(), statement_views(statements@));
                        assert(whole == after(item_out.used, item_out.errors, next));
                        lemma_after_after(
                            (p - origin) as nat,
                            noted,
                            item_out.used,
                            item_out.errors,
                            next,
                        );
                        lemma_errors_assoc(e0, noted, item_out.errors);
                        noted = noted + item_out.errors;
                        self.lemma_lexed();
                    }
                },
                Err(error) => {
                    proof {
                        assert(whole == done(
                            statement_views(statements@),
                            item_out.used,
                            item_out.errors.push(error.model()),
                        ));
                        lemma_errors_assoc(e0, noted, item_out.errors);
                        lemma_errors_assoc(e0, noted + item_out.errors, seq![error.model()]);
                        lemma_errors_assoc(noted, item_out.errors, seq![error.model()]);
                    }
                    self.recover_error(error);
                    break ;
                },
            }
        }
        statements
    }

    /// Records that `statement` is an expression without its `;`, where it is.
    pub fn validate_statement(&mut self, statement: &Statement)
        requires
            old(self).wf(),
        ensures
            old(self).moved(*final(self), 0, missing_semicolon(statement.model())),
    {
        broadcast use group_outcomes;

        match end_of_unterminated(statement) {
            Some(end_token) => {
                self.recover_error(
                    ParseError::ExpectedSingle { expected: TokenKind::Semi, found: end_token },
                );
            },
            None => {},
        }
    }

    /// Records, for each of `statements` but the last, that it is an
    /// expression without its `;`, where it is.
    pub fn validate_statements(&mut self, statements: &Vec<Statement>)
        requires
            old(self).wf(),
        ensures
            old(self).moved(*final(self), 0, block_errors(statement_views(statements@))),
    {
        broadcast use group_outcomes;

        let ghost views = statement_views(statements@);
        if statements.len() == 0 {
            return ;
        }
        let last = statements.len() - 1;
        let mut i: usize = 0;
        proof {
            assert(views.drop_last().subrange(0, 0) =~= Seq::<StatementView>::empty());
        }
        while i < last
            invariant
                old(self).moved(
                    *self,
                    0,
                    missing_semicolons(views.drop_last().subrange(0, i as int)),
                ),
                last == statements.len() - 1,
                i <= last,
                views == statement_views(statements@),
            decreases last - i,
        {
            let ghost before = views.drop_last().subrange(0, i as int);
            let ghost now = views.drop_last().subrange(0, i + 1);
            self.validate_statement(&statements[i]);
            proof {
                assert(now.drop_last() =~= before);
                assert(now.last() == statements@[i as int].model());
                lemma_errors_assoc(
                    old(self).recorded(),
                    missing_semicolons(before),
                    missing_semicolon(now.last()),
                );
            }
            i = i + 1;
        }
        proof {
            assert(views.drop_last().subrange(0, last as int) =~= views.drop_last());
        }
    }
}

} // verus!
