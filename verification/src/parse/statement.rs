//! Statements and whole programs.
use crate::ast::token::TokenKind;
use crate::ast::{
    lemma_push_statement, lemma_push_string, statement_views, string_views, ASTree,
    EnumStatement, FunctionStatement, LetStatement, Statement, StatementView, StructStatement,
};
use crate::parse::block::end_of_unterminated;
use crate::parse::grammar::{
    after, block_at, done, enum_at, expr_at, function_at, group_outcomes, lemma_after_after,
    lemma_errors_assoc, let_at, outer_errors, program, program_rest, statement_at, struct_at,
    unterminated, variants_rest, ErrorView,
};
use crate::parse::stream::lexed_text;
use crate::parse::types::lemma_parameters_deep;
use crate::parse::{error_views, ParseError, Parser};
use vstd::prelude::*;

verus! {

/// Whether `tree` and `errors` are what parsing the text `input` gives.
pub open spec fn parsed(input: Seq<char>, tree: ASTree, errors: Vec<ParseError>) -> bool {
    (tree.deep_view(), error_views(errors@)) == program(lexed_text(input))
}

/// Parsing is a function of the text alone: any two parses of one text give
/// trees of equal value and the same diagnostics.
pub proof fn lemma_parse_deterministic(
    input: Seq<char>,
    first: (ASTree, Vec<ParseError>),
    second: (ASTree, Vec<ParseError>),
)
    requires
        parsed(input, first.0, first.1),
        parsed(input, second.0, second.1),
    ensures
        first.0.deep_view() == second.0.deep_view(),
        error_views(first.1@) == error_views(second.1@),
{
}

impl Parser {
    /// `Statement := FunctionDecl | StructDecl | EnumDecl | LetDecl | ExprStmt`.
    /// At the end of input the answer stands for it and nothing is taken.
    pub fn parse_statement(&mut self) -> (r: Result<Statement, ParseError>)
        requires
            old(self).wf(),
        ensures
            old(self).yields(*final(self), r, statement_at(old(self).lexed(), old(self).pos())),
            r is Ok && !(r->Ok_0 is EOF) ==> final(self).pos() > old(self).pos(),
        decreases old(self).lexed().rest(old(self).pos()), 8nat, 0nat,
    {
        broadcast use group_outcomes;

        reveal(statement_at);
        reveal(function_at);
        reveal(let_at);
        reveal(expr_at);
        proof {
            self.lemma_lexed();
        }
        match self.peek(0).kind {
            TokenKind::Fn => match self.parse_function() {
                Ok(item) => Ok(Statement::Function(item)),
                Err(error) => Err(error),
            },
            TokenKind::Struct => match self.parse_struct() {
                Ok(item) => Ok(Statement::Struct(item)),
                Err(error) => Err(error),
            },
            TokenKind::Enum => match self.parse_enum() {
                Ok(item) => Ok(Statement::Enum(item)),
                Err(error) => Err(error),
            },
            TokenKind::Let => match self.parse_let() {
                Ok(item) => Ok(Statement::Let(item)),
                Err(error) => Err(error),
            },
            TokenKind::EOF => Ok(Statement::EOF),
            _ => match self.parse_expr(0) {
                Ok(expr) => {
                    let end_token = self.peek(0);
                    if end_token.kind == TokenKind::Semi {
                        self.bump();
                    }
                    Ok(Statement::Expression { expr, end_token })
                },
                Err(error) => Err(error),
            },
        }
    }

    /// `FunctionDecl := 'fn' ID '(' Params ')' '->' Type Block`
    pub fn parse_function(&mut self) -> (r: Result<FunctionStatement, ParseError>)
        requires
            old(self).wf(),
            old(self).lexed().kind(old(self).pos()) == TokenKind::Fn,
        ensures
            old(self).yields(*final(self), r, function_at(old(self).lexed(), old(self).pos())),
            final(self).pos() > old(self).pos(),
        decreases old(self).lexed().rest(old(self).pos()), 7nat, 0nat,
    {
        broadcast use group_outcomes;

        reveal(function_at);
        reveal(block_at);
        proof {
            self.lemma_lexed();
        }
        self.bump();
        let name = match self.take_name() {
            Ok(name) => name,
            Err(error) => {
                return Err(error);
            },
        };
        let arguments = match self.parse_params(TokenKind::OpenParen, TokenKind::CloseParen) {
            Ok(arguments) => arguments,
            Err(error) => {
                return Err(error);
            },
        };
        proof {
            lemma_parameters_deep(arguments);
        }
        match self.bump_expect(TokenKind::RArrow) {
            Ok(_) => {},
            Err(error) => {
                return Err(error);
            },
        }
        let return_type = match self.parse_type() {
            Ok(return_type) => return_type,
            Err(error) => {
                return Err(error);
            },
        };
        let block = match self.parse_block() {
            Ok(block) => block,
            Err(error) => {
                return Err(error);
            },
        };
        Ok(FunctionStatement { name, arguments, return_type, block })
    }

    /// `StructDecl := 'struct' ID '{' Params '}'`
    pub fn parse_struct(&mut self) -> (r: Result<StructStatement, ParseError>)
        requires
            old(self).wf(),
            old(self).lexed().kind(old(self).pos()) == TokenKind::Struct,
        ensures
            old(self).yields(*final(self), r, struct_at(old(self).lexed(), old(self).pos())),
            final(self).pos() > old(self).pos(),
    {
        broadcast use group_outcomes;

        reveal(struct_at);
        proof {
            self.lemma_lexed();
        }
        self.bump();
        let name = match self.take_name() {
            Ok(name) => name,
            Err(error) => {
                return Err(error);
            },
        };
        let fields = match self.parse_params(TokenKind::OpenBrace, TokenKind::CloseBrace) {
            Ok(fields) => fields,
            Err(error) => {
                return Err(error);
            },
        };
        proof {
            lemma_parameters_deep(fields);
        }
        Ok(StructStatement { name, fields })
    }

    /// `EnumDecl := 'enum' ID '{' (ID ',')* ID? '}'`
    pub fn parse_enum(&mut self) -> (r: Result<EnumStatement, ParseError>)
        requires
            old(self).wf(),
            old(self).lexed().kind(old(self).pos()) == TokenKind::Enum,
        ensures
            old(self).yields(*final(self), r, enum_at(old(self).lexed(), old(self).pos())),
            final(self).pos() > old(self).pos(),
    {
        broadcast use group_outcomes;

        reveal(enum_at);
        proof {
            self.lemma_lexed();
        }
        self.bump();
        let name = match self.take_name() {
            Ok(name) => name,
            Err(error) => {
                return Err(error);
            },
        };
        match self.bump_expect(TokenKind::OpenBrace) {
            Ok(_) => {},
            Err(error) => {
                return Err(error);
            },
        }
        let variants = match self.parse_variants() {
            Ok(variants) => variants,
            Err(error) => {
                return Err(error);
            },
        };
        Ok(EnumStatement { name, variants })
    }

    /// The variants of an enum, with the `}` that ends them. Nothing inside
    /// an enum is skipped: the first token out of place ends it with an error.
    pub fn parse_variants(&mut self) -> (r: Result<Vec<String>, ParseError>)
        requires
            old(self).wf(),
        ensures
            old(self).moved(
                *final(self),
                variants_rest(old(self).lexed(), old(self).pos(), Seq::empty()).used,
                variants_rest(old(self).lexed(), old(self).pos(), Seq::empty()).errors,
            ),
            r is Ok ==> variants_rest(old(self).lexed(), old(self).pos(), Seq::empty()).result
                == Ok::<Seq<Seq<char>>, ErrorView>(string_views(r->Ok_0@)),
            r is Err ==> variants_rest(old(self).lexed(), old(self).pos(), Seq::empty()).result
                == Err::<Seq<Seq<char>>, ErrorView>(r->Err_0.model()),
    {
        broadcast use group_outcomes;

        let ghost c = self.lexed();
        let ghost origin = self.pos();
        let ghost e0 = self.recorded();
        let ghost total = variants_rest(c, origin, Seq::empty());
        let mut variants: Vec<String> = Vec::new();
        proof {
            self.lemma_lexed();
            assert(string_views(variants@) =~= Seq::<Seq<char>>::empty());
        }
        loop
            invariant
                self.wf(),
                self.lexed() == c,
                c == old(self).lexed(),
                origin == old(self).pos(),
                e0 == old(self).recorded(),
                origin <= self.pos() < c.tokens.len(),
                self.recorded() == e0,
                total == variants_rest(c, origin, Seq::empty()),
                total == after(
                    (self.pos() - origin) as nat,
                    Seq::empty(),
                    variants_rest(c, self.pos(), string_views(variants@)),
                ),
            decreases c.rest(self.pos()),
        {
            reveal(variants_rest);
            let token = self.peek(0);
            if token.kind == TokenKind::CloseBrace {
                self.bump();
                return Ok(variants);
            }
            if token.kind != TokenKind::Identifier {
                return Err(
                    ParseError::ExpectedAlternatives {
                        expected: vec![TokenKind::Identifier, TokenKind::CloseBrace],
                        found: token,
                    },
                );
            }
            let name = self.lexeme();
            self.bump();
            let next = self.peek(0);
            if next.kind == TokenKind::Comma {
                self.bump();
                proof {
                    lemma_push_string(variants@, name);
                }
                variants.push(name);
                proof {
                    self.lemma_lexed();
                }
            } else if next.kind == TokenKind::CloseBrace {
                self.bump();
                proof {
                    lemma_push_string(variants@, name);
                }
                variants.push(name);
                return Ok(variants);
            } else {
                return Err(
                    ParseError::ExpectedAlternatives {
                        expected: vec![TokenKind::Comma, TokenKind::CloseBrace],
                        found: next,
                    },
                );
            }
        }
    }

    /// `LetDecl := 'let' ID '=' Expression ';'`
    pub fn parse_let(&mut self) -> (r: Result<LetStatement, ParseError>)
        requires
            old(self).wf(),
            old(self).lexed().kind(old(self).pos()) == TokenKind::Let,
        ensures
            old(self).yields(*final(self), r, let_at(old(self).lexed(), old(self).pos())),
            final(self).pos() > old(self).pos(),
        decreases old(self).lexed().rest(old(self).pos()), 7nat, 0nat,
    {
        broadcast use group_outcomes;

        reveal(let_at);
        reveal(expr_at);
        proof {
            self.lemma_lexed();
        }
        self.bump();
        let name = match self.take_name() {
            Ok(name) => name,
            Err(error) => {
                return Err(error);
            },
        };
        match self.bump_expect(TokenKind::Eq) {
            Ok(_) => {},
            Err(error) => {
                return Err(error);
            },
        }
        let value = match self.parse_expr(0) {
            Ok(value) => value,
            Err(error) => {
                return Err(error);
            },
        };
        match self.bump_expect(TokenKind::Semi) {
            Ok(_) => {},
            Err(error) => {
                return Err(error);
            },
        }
        Ok(LetStatement { name, value })
    }

    /// `Program := Statement* EOF`: the statements up to the end of input or
    /// a statement that fails, which is recorded.
    pub fn parse_program(&mut self) -> (statements: Vec<Statement>)
        requires
            old(self).wf(),
        ensures
            old(self).moved(
                *final(self),
                program_rest(old(self).lexed(), old(self).pos(), Seq::empty()).used,
                program_rest(old(self).lexed(), old(self).pos(), Seq::empty()).errors,
            ),
            program_rest(old(self).lexed(), old(self).pos(), Seq::empty()).result == Ok::<
                Seq<StatementView>,
                ErrorView,
            >(statement_views(statements@)),
    {
        broadcast use group_outcomes;

        let ghost c = self.lexed();
        let ghost origin = self.pos();
        let ghost e0 = self.recorded();
        let ghost total = program_rest(c, origin, Seq::empty());
        let ghost mut noted: Seq<ErrorView> = Seq::empty();
        let mut statements: Vec<Statement> = Vec::new();
        proof {
            self.lemma_lexed();
            assert(statement_views(statements@) =~= Seq::<StatementView>::empty());
        }
        loop
            invariant_except_break
                self.recorded() == e0 + noted,
                total == after(
                    (self.pos() - origin) as nat,
                    noted,
                    program_rest(c, self.pos(), statement_views(statements@)),
                ),
            invariant
                self.wf(),
                self.lexed() == c,
                c == old(self).lexed(),
                origin == old(self).pos(),
                e0 == old(self).recorded(),
                origin <= self.pos() < c.tokens.len(),
                total == program_rest(c, origin, Seq::empty()),
            ensures
                self.wf(),
                self.lexed() == c,
                self.recorded() == e0 + total.errors,
                self.pos() == origin + total.used,
                total.result == Ok::<Seq<StatementView>, ErrorView>(statement_views(statements@)),
            decreases c.rest(self.pos()),
        {
            reveal(program_rest);
            let ghost p = self.pos();
            let ghost whole = program_rest(c, p, statement_views(statements@));
            let ghost item_out = statement_at(c, p);
            match self.parse_statement() {
                Ok(Statement::EOF) => {
                    proof {
                        assert(whole == done(
                            statement_views(statements@),
                            item_out.used,
                            item_out.errors,
                        ));
                        lemma_errors_assoc(e0, noted, item_out.errors);
                    }
                    break ;
                },
                Ok(item) => {
                    proof {
                        lemma_push_statement(statements@, item);
                    }
                    statements.push(item);
                    proof {
                        let next = program_rest(c, self.pos(), statement_views(statements@));
                        assert(whole == after(item_out.used, item_out.errors, next));
                        lemma_after_after(
                            (p - origin) as nat,
                            noted,
                            item_out.used,
                            item_out.errors,
                            next,
                        );
                        lemma_errors_assoc(e0, noted, item_out.errors);
                        noted = noted + item_out.errors;
                        self.lemma_lexed();
                    }
                },
                Err(error) => {
                    proof {
                        assert(whole == done(
                            statement_views(statements@),
                            item_out.used,
                            item_out.errors.push(error.model()),
                        ));
                        lemma_errors_assoc(e0, noted, item_out.errors);
                        lemma_errors_assoc(e0, noted + item_out.errors, seq![error.model()]);
                        lemma_errors_assoc(noted, item_out.errors, seq![error.model()]);
                    }
                    self.recover_error(error);
                    break ;
                },
            }
        }
        statements
    }

    /// Records, for each of the top-level statements `statements`, that it
    /// is an expression without its `;`, where it is.
    pub fn check_outer(&mut self, statements: &Vec<Statement>)
        requires
            old(self).wf(),
        ensures
            old(self).moved(*final(self), 0, outer_errors(statement_views(statements@))),
    {
        broadcast use group_outcomes;

        let ghost views = statement_views(statements@);
        let mut i: usize = 0;
        proof {
            assert(views.subrange(0, 0) =~= Seq::<StatementView>::empty());
        }
        while i < statements.len()
            invariant
                old(self).moved(*self, 0, outer_errors(views.subrange(0, i as int))),
                i <= statements.len(),
                views == statement_views(statements@),
            decreases statements.len() - i,
        {
            let ghost before = views.subrange(0, i as int);
            let ghost now = views.subrange(0, i + 1);
            proof {
                assert(now.drop_last() =~= before);
                assert(now.last() == statements@[i as int].model());
                assert(outer_errors(now) == if unterminated(now.last()) {
                    outer_errors(before).push(ErrorView::OuterExpression)
                } else {
                    outer_errors(before)
                });
            }
            match end_of_unterminated(&statements[i]) {
                Some(_) => {
                    self.recover_error(ParseError::OuterExpression);
                    proof {
                        let error = ErrorView::OuterExpression;
                        assert(outer_errors(before).push(error) =~= outer_errors(before)
                            + seq![error]);
                        lemma_errors_assoc(
                            old(self).recorded(),
                            outer_errors(before),
                            seq![error],
                        );
                    }
                },
                None => {},
            }
            i = i + 1;
        }
        proof {
            assert(views.subrange(0, statements.len() as int) =~= views);
        }
    }

    /// Parses the text `input`: its top-level statements, as far as they
    /// could be built, and every diagnostic in the order in which it arose.
    pub fn parse(input: &str) -> (r: (ASTree, Vec<ParseError>))
        ensures
            parsed(input@, r.0, r.1),
    {
        broadcast use group_outcomes;

        let mut parser = Parser::new(input);
        let statements = parser.parse_program();
        parser.check_outer(&statements);
        (ASTree::new(statements), parser.errors)
    }
}

} // verus!
