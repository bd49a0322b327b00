//! Types and the lists that hold them: parameter lists and lists of types.
use crate::ast::token::TokenKind;
use crate::ast::{
    lemma_push_parameter, lemma_push_type, parameter_views, type_views, FloatKind, IntKind,
    Parameter, ParameterView, TupleType, Type, TypeView,
};
use crate::lex::lexer::to_chars;
use crate::parse::grammar::{
    after, closing, ends_skip, failed, lemma_after_after, lemma_errors_assoc, lemma_param_used,
    group_outcomes, lemma_skipped, no_entry, param_at, params_at, params_rest, skipped,
    starts_entry, type_args_at, type_args_rest, type_at, type_fn_at, type_from_name, type_list_at,
    ErrorView,
};
use crate::parse::stream::{spells, string_of};
use crate::parse::{ParseError, Parser};
use vstd::prelude::*;

verus! {

/// Whether a token of kind `kind` may begin an entry of a list: of a list of
/// types where `types` holds, else of a list of parameters.
pub fn begins_entry(kind: TokenKind, types: bool) -> (b: bool)
    ensures
        b == starts_entry(kind, types),
{
    kind == TokenKind::Identifier || (types && (kind == TokenKind::OpenParen || kind
        == TokenKind::OpenBracket || kind == TokenKind::Fn))
}

/// Whether the skipping after a malformed entry stops at a token of kind `kind`.
pub fn stops_skip(kind: TokenKind, types: bool, close: TokenKind) -> (b: bool)
    ensures
        b == ends_skip(kind, types, close),
{
    kind == TokenKind::Comma || kind == close || kind == TokenKind::EOF || begins_entry(
        kind,
        types,
    )
}

/// The type that the text of `chars` from `start` up to `end` names.
pub fn type_from_chars(chars: &Vec<char>, start: usize, end: usize) -> (t: Type)
    requires
        start <= end <= chars.len(),
    ensures
        t.model() == type_from_name(chars@.subrange(start as int, end as int)),
{
    reveal(type_from_name);
    if spells(chars, start, end, "bool") {
        Type::Bool
    } else if spells(chars, start, end, "str") {
        Type::Str
    } else if spells(chars, start, end, "char") {
        Type::Char
    } else if spells(chars, start, end, "u8") {
        Type::Int { sign: false, kind: IntKind::Bit8 }
    } else if spells(chars, start, end, "u16") {
        Type::Int { sign: false, kind: IntKind::Bit16 }
    } else if spells(chars, start, end, "u32") {
        Type::Int { sign: false, kind: IntKind::Bit32 }
    } else if spells(chars, start, end, "u64") {
        Type::Int { sign: false, kind: IntKind::Bit64 }
    } else if spells(chars, start, end, "i8") {
        Type::Int { sign: true, kind: IntKind::Bit8 }
    } else if spells(chars, start, end, "i16") {
        Type::Int { sign: true, kind: IntKind::Bit16 }
    } else if spells(chars, start, end, "i32") {
        Type::Int { sign: true, kind: IntKind::Bit32 }
    } else if spells(chars, start, end, "i64") {
        Type::Int { sign: true, kind: IntKind::Bit64 }
    } else if spells(chars, start, end, "f32") {
        Type::Float { kind: FloatKind::Bit32 }
    } else if spells(chars, start, end, "f64") {
        Type::Float { kind: FloatKind::Bit64 }
    } else if spells(chars, start, end, "void") {
        Type::Void
    } else {
        Type::UserDefined { name: string_of(chars, start, end) }
    }
}

/// The values of the elements of a vector of types are those of its view.
pub proof fn lemma_types_deep(types: Vec<Type>)
    ensures
        types.deep_view() == type_views(types@),
{
    assert(types.deep_view() =~= type_views(types@));
}

/// The values of the elements of a vector of parameters are those of its view.
pub proof fn lemma_parameters_deep(parameters: Vec<Parameter>)
    ensures
        parameters.deep_view() == parameter_views(parameters@),
{
    assert(parameters.deep_view() =~= parameter_views(parameters@));
}

impl Parser {
    /// The type that the name `typename` stands for: a primitive, or else a
    /// type of the user's.
    pub fn parse_type_from_ident(typename: &str) -> (t: Type)
        ensures
            t.model() == type_from_name(typename@),
    {
        let chars = to_chars(typename);
        assert(chars@.subrange(0, chars.len() as int) =~= chars@);
        type_from_chars(&chars, 0, chars.len())
    }

    /// Passes over the tokens that follow a malformed entry, up to a comma, a
    /// token that may begin an entry, the closing delimiter or the end of input.
    fn skip_entry(&mut self, types: bool, close: TokenKind)
        requires
            old(self).wf(),
        ensures
            old(self).moved(
                *final(self),
                skipped(old(self).lexed(), old(self).pos(), types, close),
                Seq::empty(),
            ),
    {
        let passes = |kind: TokenKind| -> (b: bool)
            ensures
                b == !ends_skip(kind, types, close),
            { !stops_skip(kind, types, close) };
        self.bump_while(passes);
        proof {
            self.lemma_lexed();
            lemma_skipped(self.lexed(), old(self).pos(), self.pos(), types, close);
        }
    }

    /// `Type := ID | '(' Type,* ')' | '[' Type ']' | 'fn' '(' Type,* ')' '->' Type`
    pub fn parse_type(&mut self) -> (r: Result<Type, ParseError>)
        requires
            old(self).wf(),
        ensures
            old(self).yields(*final(self), r, type_at(old(self).lexed(), old(self).pos())),
            starts_entry(old(self).lexed().kind(old(self).pos()), true) ==> final(self).pos() > old(
                self,
            ).pos(),
        decreases old(self).lexed().rest(old(self).pos()), 2nat, 0nat,
    {
        broadcast use group_outcomes;

        reveal(type_at);
        reveal(type_args_at);
        reveal(type_list_at);
        reveal(type_fn_at);
        proof {
            self.lemma_lexed();
        }
        let token = self.peek(0);
        match token.kind {
            TokenKind::Identifier => {
                let name = self.lexeme();
                self.bump();
                Ok(Parser::parse_type_from_ident(name.as_str()))
            },
            TokenKind::OpenParen => self.parse_type_tuple(),
            TokenKind::OpenBracket => self.parse_type_list(),
            TokenKind::Fn => self.parse_type_fn(),
            _ => Err(ParseError::ExpectedNode { expected: String::from_str("type"), found: token }),
        }
    }

    /// A tuple type, from its `(` on.
    pub fn parse_type_tuple(&mut self) -> (r: Result<Type, ParseError>)
        requires
            old(self).wf(),
            old(self).lexed().kind(old(self).pos()) == TokenKind::OpenParen,
        ensures
            old(self).yields(*final(self), r, type_at(old(self).lexed(), old(self).pos())),
            final(self).pos() > old(self).pos(),
        decreases old(self).lexed().rest(old(self).pos()), 1nat, 1nat,
    {
        reveal(type_at);
        reveal(type_args_at);
        proof {
            self.lemma_lexed();
        }
        match self.parse_type_args(TokenKind::OpenParen, TokenKind::CloseParen) {
            Ok(arguments) => {
                proof {
                    lemma_types_deep(arguments);
                }
                Ok(Type::Tuple(TupleType(arguments)))
            },
            Err(error) => Err(error),
        }
    }

    /// A list type, from its `[` on. A missing `]` is recorded and passed over.
    pub fn parse_type_list(&mut self) -> (r: Result<Type, ParseError>)
        requires
            old(self).wf(),
            old(self).lexed().kind(old(self).pos()) == TokenKind::OpenBracket,
        ensures
            old(self).yields(*final(self), r, type_list_at(old(self).lexed(), old(self).pos())),
            final(self).pos() > old(self).pos(),
        decreases old(self).lexed().rest(old(self).pos()), 1nat, 0nat,
    {
        broadcast use group_outcomes;

        reveal(type_list_at);
        reveal(type_at);
        proof {
            self.lemma_lexed();
        }
        self.bump();
        let item = match self.parse_type() {
            Ok(item) => item,
            Err(error) => {
                return Err(error);
            },
        };
        self.bump_recover(TokenKind::CloseBracket);
        Ok(Type::List(Box::new(item)))
    }

    /// A function type, from its `fn` on.
    pub fn parse_type_fn(&mut self) -> (r: Result<Type, ParseError>)
        requires
            old(self).wf(),
            old(self).lexed().kind(old(self).pos()) == TokenKind::Fn,
        ensures
            old(self).yields(*final(self), r, type_fn_at(old(self).lexed(), old(self).pos())),
            final(self).pos() > old(self).pos(),
        decreases old(self).lexed().rest(old(self).pos()), 1nat, 0nat,
    {
        broadcast use group_outcomes;

        reveal(type_fn_at);
        reveal(type_args_at);
        reveal(type_at);
        proof {
            self.lemma_lexed();
        }
        self.bump();
        let arguments = match self.parse_type_args(TokenKind::OpenParen, TokenKind::CloseParen) {
            Ok(arguments) => arguments,
            Err(error) => {
                return Err(error);
            },
        };
        proof {
            lemma_types_deep(arguments);
        }
        match self.bump_expect(TokenKind::RArrow) {
            Ok(_) => {},
            Err(error) => {
                return Err(error);
            },
        }
        let return_type = match self.parse_type() {
            Ok(return_type) => return_type,
            Err(error) => {
                return Err(error);
            },
        };
        Ok(Type::Fn { arguments, return_type: Box::new(return_type) })
    }

    /// One entry of a list of types, with the comma before it where it is
    /// not the first. Answers with an error where the list has to be given up.
    fn parse_type_entry(&mut self, close: TokenKind, first: bool, arguments: &mut Vec<Type>) -> (r: (
        Option<ParseError>,
        Ghost<Seq<ErrorView>>,
    ))
        requires
            old(self).wf(),
            close != TokenKind::EOF,
            !(old(self).lexed().kind(old(self).pos()) == close || (old(self).lexed().peek(
                old(self).pos(),
                1,
            ).kind == close && !first)),
        ensures
            old(self).moved(
                *final(self),
                (final(self).pos() - old(self).pos()) as nat,
                r.1@,
            ),
            final(self).pos() >= old(self).pos(),
            r.0 is Some ==> type_args_rest(
                old(self).lexed(),
                old(self).pos(),
                close,
                first,
                type_views(old(arguments)@),
            ) == failed::<Seq<TypeView>>(
                r.0->0.model(),
                (final(self).pos() - old(self).pos()) as nat,
                r.1@,
            ),
            r.0 is None ==> type_args_rest(
                old(self).lexed(),
                old(self).pos(),
                close,
                first,
                type_views(old(arguments)@),
            ) == after(
                (final(self).pos() - old(self).pos()) as nat,
                r.1@,
                type_args_rest(
                    old(self).lexed(),
                    final(self).pos(),
                    close,
                    false,
                    type_views(final(arguments)@),
                ),
            ),
            r.0 is None ==> first || final(self).pos() > old(self).pos(),
        decreases old(self).lexed().rest(old(self).pos()), 3nat, 0nat,
    {
        broadcast use group_outcomes;

        reveal(type_args_rest);
        reveal(type_at);
        let ghost c = self.lexed();
        let ghost p = self.pos();
        let ghost acc = type_views(arguments@);
        proof {
            self.lemma_lexed();
        }
        let comma: Result<(), ParseError> = if first {
            Ok(())
        } else {
            self.bump_expect(TokenKind::Comma)
        };
        let ghost separated = comma is Ok;
        let ghost here = self.pos();
        let found = self.peek(0);
        if !(found.kind == TokenKind::Comma || begins_entry(found.kind, true)) {
            let error = match comma {
                Ok(_) => ParseError::ExpectedSingle { expected: close, found },
                Err(_) => ParseError::ExpectedAlternatives {
                    expected: vec![TokenKind::Comma, close],
                    found,
                },
            };
            assert(error.model() == no_entry(separated, close, found));
            return (Some(error), Ghost(Seq::empty()));
        }
        let ghost mut noted: Seq<ErrorView> = Seq::empty();
        match comma {
            Ok(_) => {},
            Err(error) => {
                proof {
                    noted = seq![error.model()];
                }
                self.recover_error(error);
            },
        }
        let ghost entry = type_at(c, here);
        match self.parse_type() {
            Ok(item) => {
                proof {
                    lemma_push_type(arguments@, item);
                        assert(entry.used > 0);
                }
                arguments.push(item);
                (None, Ghost(noted + entry.errors))
            },
            Err(error) => {
                self.skip_entry(true, close);
                let kind = self.peek(0).kind;
                if !(kind == TokenKind::Comma || kind == close || begins_entry(kind, true)) {
                    return (Some(error), Ghost(noted + entry.errors));
                }
                self.recover_error(error);
                (None, Ghost((noted + entry.errors).push(error.model())))
            },
        }
    }

    /// The entries of a list of types, up to where the closing delimiter
    /// stands, with or without a comma before it.
    fn parse_type_entries(&mut self, close: TokenKind) -> (r: Result<Vec<Type>, ParseError>)
        requires
            old(self).wf(),
            close != TokenKind::EOF,
        ensures
            old(self).moved(
                *final(self),
                type_args_rest(old(self).lexed(), old(self).pos(), close, true, Seq::empty()).used,
                type_args_rest(old(self).lexed(), old(self).pos(), close, true, Seq::empty()).errors,
            ),
            r is Ok ==> type_args_rest(
                old(self).lexed(),
                old(self).pos(),
                close,
                true,
                Seq::empty(),
            ).result == Ok::<Seq<TypeView>, ErrorView>(type_views(r->Ok_0@)),
            r is Err ==> type_args_rest(
                old(self).lexed(),
                old(self).pos(),
                close,
                true,
                Seq::empty(),
            ).result == Err::<Seq<TypeView>, ErrorView>(r->Err_0.model()),
        decreases old(self).lexed().rest(old(self).pos()), 4nat, 0nat,
    {
        broadcast use group_outcomes;

        reveal(type_args_rest);
        let ghost c = self.lexed();
        let ghost origin = self.pos();
        let ghost e0 = self.recorded();
        let mut arguments: Vec<Type> = Vec::new();
        let mut first = true;
        let ghost total = type_args_rest(c, origin, close, true, Seq::empty());
        let ghost mut noted: Seq<ErrorView> = Seq::empty();
        proof {
            self.lemma_lexed();
            assert(type_views(arguments@) =~= Seq::<TypeView>::empty());
        }
        loop
            invariant
                self.wf(),
                self.lexed() == c,
                close != TokenKind::EOF,
                origin <= self.pos() < c.tokens.len(),
                origin == old(self).pos(),
                c == old(self).lexed(),
                e0 == old(self).recorded(),
                self.recorded() == e0 + noted,
                total == type_args_rest(c, origin, close, true, Seq::empty()),
                total == after(
                    (self.pos() - origin) as nat,
                    noted,
                    type_args_rest(c, self.pos(), close, first, type_views(arguments@)),
                ),
            ensures
                self.recorded() == e0 + total.errors,
                self.pos() == origin + total.used,
                total.result == Ok::<Seq<TypeView>, ErrorView>(type_views(arguments@)),
            decreases c.rest(self.pos()), (if first {
                1nat
            } else {
                0nat
            }),
        {
            reveal(type_args_rest);
            if self.peek(0).kind == close || (self.peek(1).kind == close && !first) {
                break ;
            }
            let ghost p = self.pos();
            let ghost whole = type_args_rest(c, p, close, first, type_views(arguments@));
            let (stop, Ghost(errors)) = self.parse_type_entry(close, first, &mut arguments);
            match stop {
                Some(error) => {
                    assert(total == failed::<Seq<TypeView>>(
                        error.model(),
                        (self.pos() - origin) as nat,
                        noted + errors,
                    ));
                    assert(self.recorded() == e0 + (noted + errors)) by {
                        lemma_errors_assoc(e0, noted, errors);
                    }
                    return Err(error);
                },
                None => {},
            }
            first = false;
            proof {
                let next = type_args_rest(c, self.pos(), close, false, type_views(arguments@));
                assert(whole == after((self.pos() - p) as nat, errors, next));
                assert(total == after((p - origin) as nat, noted, whole));
                lemma_after_after((p - origin) as nat, noted, (self.pos() - p) as nat, errors, next);
                noted = noted + errors;
                self.lemma_lexed();
            }
        }
        Ok(arguments)
    }

    /// A list of types between `open` and `close`, separated by commas, the
    /// last of which may be followed by one more comma. A malformed entry is
    /// recorded and skipped.
    pub fn parse_type_args(&mut self, open: TokenKind, close: TokenKind) -> (r: Result<
        Vec<Type>,
        ParseError,
    >)
        requires
            old(self).wf(),
            open != TokenKind::EOF,
            close != TokenKind::EOF,
        ensures
            old(self).yields(
                *final(self),
                r,
                type_args_at(old(self).lexed(), old(self).pos(), open, close),
            ),
            old(self).lexed().kind(old(self).pos()) == open ==> final(self).pos() > old(self).pos(),
        decreases old(self).lexed().rest(old(self).pos()), 1nat, 0nat,
    {
        broadcast use group_outcomes;

        reveal(type_args_at);
        reveal(type_args_rest);
        proof {
            self.lemma_lexed();
        }
        match self.bump_expect(open) {
            Ok(_) => {},
            Err(error) => {
                return Err(error);
            },
        }
        let arguments = match self.parse_type_entries(close) {
            Ok(arguments) => arguments,
            Err(error) => {
                return Err(error);
            },
        };
        proof {
            lemma_types_deep(arguments);
        }
        self.bump_check(TokenKind::Comma);
        match self.bump_expect(close) {
            Ok(_) => Ok(arguments),
            Err(error) => Err(error),
        }
    }

    /// `ID ':' Type`
    pub fn parse_param(&mut self) -> (r: Result<Parameter, ParseError>)
        requires
            old(self).wf(),
        ensures
            old(self).yields(*final(self), r, param_at(old(self).lexed(), old(self).pos())),
    {
        broadcast use group_outcomes;

        reveal(param_at);
        proof {
            self.lemma_lexed();
        }
        let name = match self.take_name() {
            Ok(name) => name,
            Err(error) => {
                return Err(error);
            },
        };
        match self.bump_expect(TokenKind::Colon) {
            Ok(_) => {},
            Err(error) => {
                return Err(error);
            },
        }
        let param_type = match self.parse_type() {
            Ok(param_type) => param_type,
            Err(error) => {
                return Err(error);
            },
        };
        Ok(Parameter { name, param_type })
    }

    /// One entry of a list of parameters, with the comma before it where it
    /// is not the first. Answers with an error where the list has to be given up.
    fn parse_param_entry(&mut self, close: TokenKind, first: bool, parameters: &mut Vec<Parameter>) -> (r: (
        Option<ParseError>,
        Ghost<Seq<ErrorView>>,
    ))
        requires
            old(self).wf(),
            close != TokenKind::EOF,
            !(old(self).lexed().kind(old(self).pos()) == close || old(self).lexed().peek(
                old(self).pos(),
                1,
            ).kind == close),
        ensures
            old(self).moved(
                *final(self),
                (final(self).pos() - old(self).pos()) as nat,
                r.1@,
            ),
            final(self).pos() >= old(self).pos(),
            r.0 is Some ==> params_rest(
                old(self).lexed(),
                old(self).pos(),
                close,
                first,
                parameter_views(old(parameters)@),
            ) == failed::<Seq<ParameterView>>(
                r.0->0.model(),
                (final(self).pos() - old(self).pos()) as nat,
                r.1@,
            ),
            r.0 is None ==> params_rest(
                old(self).lexed(),
                old(self).pos(),
                close,
                first,
                parameter_views(old(parameters)@),
            ) == after(
                (final(self).pos() - old(self).pos()) as nat,
                r.1@,
                params_rest(
                    old(self).lexed(),
                    final(self).pos(),
                    close,
                    false,
                    parameter_views(final(parameters)@),
                ),
            ),
            r.0 is None ==> first || final(self).pos() > old(self).pos(),
    {
        broadcast use group_outcomes;

        reveal(params_rest);
        let ghost c = self.lexed();
        let ghost p = self.pos();
        let ghost acc = parameter_views(parameters@);
        proof {
            self.lemma_lexed();
        }
        let comma: Result<(), ParseError> = if first {
            Ok(())
        } else {
            self.bump_expect(TokenKind::Comma)
        };
        let ghost separated = comma is Ok;
        let ghost here = self.pos();
        let found = self.peek(0);
        if !(found.kind == TokenKind::Comma || begins_entry(found.kind, false)) {
            let error = match comma {
                Ok(_) => ParseError::ExpectedSingle { expected: close, found },
                Err(_) => ParseError::ExpectedAlternatives {
                    expected: vec![TokenKind::Comma, close],
                    found,
                },
            };
            assert(error.model() == no_entry(separated, close, found));
            return (Some(error), Ghost(Seq::empty()));
        }
        let ghost mut noted: Seq<ErrorView> = Seq::empty();
        match comma {
            Ok(_) => {},
            Err(error) => {
                proof {
                    noted = seq![error.model()];
                }
                self.recover_error(error);
            },
        }
        let ghost entry = param_at(c, here);
        proof {
            lemma_param_used(c, here);
        }
        match self.parse_param() {
            Ok(item) => {
                proof {
                    lemma_push_parameter(parameters@, item);
                }
                parameters.push(item);
                (None, Ghost(noted + entry.errors))
            },
            Err(error) => {
                self.skip_entry(false, close);
                let kind = self.peek(0).kind;
                if !(kind == TokenKind::Comma || kind == close || begins_entry(kind, false)) {
                    return (Some(error), Ghost(noted + entry.errors));
                }
                self.recover_error(error);
                (None, Ghost((noted + entry.errors).push(error.model())))
            },
        }
    }

    /// The entries of a list of parameters, up to where the closing delimiter
    /// stands, with or without a comma before it.
    fn parse_param_entries(&mut self, close: TokenKind) -> (r: Result<Vec<Parameter>, ParseError>)
        requires
            old(self).wf(),
            close != TokenKind::EOF,
        ensures
            old(self).moved(
                *final(self),
                params_rest(old(self).lexed(), old(self).pos(), close, true, Seq::empty()).used,
                params_rest(old(self).lexed(), old(self).pos(), close, true, Seq::empty()).errors,
            ),
            r is Ok ==> params_rest(
                old(self).lexed(),
                old(self).pos(),
                close,
                true,
                Seq::empty(),
            ).result == Ok::<Seq<ParameterView>, ErrorView>(parameter_views(r->Ok_0@)),
            r is Err ==> params_rest(
                old(self).lexed(),
                old(self).pos(),
                close,
                true,
                Seq::empty(),
            ).result == Err::<Seq<ParameterView>, ErrorView>(r->Err_0.model()),
    {
        broadcast use group_outcomes;

        reveal(params_rest);
        let ghost c = self.lexed();
        let ghost origin = self.pos();
        let ghost e0 = self.recorded();
        let mut parameters: Vec<Parameter> = Vec::new();
        let mut first = true;
        let ghost total = params_rest(c, origin, close, true, Seq::empty());
        let ghost mut noted: Seq<ErrorView> = Seq::empty();
        proof {
            self.lemma_lexed();
            assert(parameter_views(parameters@) =~= Seq::<ParameterView>::empty());
        }
        loop
            invariant
                self.wf(),
                self.lexed() == c,
                close != TokenKind::EOF,
                origin <= self.pos() < c.tokens.len(),
                origin == old(self).pos(),
                c == old(self).lexed(),
                e0 == old(self).recorded(),
                self.recorded() == e0 + noted,
                total == params_rest(c, origin, close, true, Seq::empty()),
                total == after(
                    (self.pos() - origin) as nat,
                    noted,
                    params_rest(c, self.pos(), close, first, parameter_views(parameters@)),
                ),
            ensures
                self.recorded() == e0 + total.errors,
                self.pos() == origin + total.used,
                total.result == Ok::<Seq<ParameterView>, ErrorView>(parameter_views(parameters@)),
            decreases c.rest(self.pos()), (if first {
                1nat
            } else {
                0nat
            }),
        {
            reveal(params_rest);
            if self.peek(0).kind == close || self.peek(1).kind == close {
                break ;
            }
            let ghost p = self.pos();
            let ghost whole = params_rest(c, p, close, first, parameter_views(parameters@));
            let (stop, Ghost(errors)) = self.parse_param_entry(close, first, &mut parameters);
            match stop {
                Some(error) => {
                    assert(total == failed::<Seq<ParameterView>>(
                        error.model(),
                        (self.pos() - origin) as nat,
                        noted + errors,
                    ));
                    assert(self.recorded() == e0 + (noted + errors)) by {
                        lemma_errors_assoc(e0, noted, errors);
                    }
                    return Err(error);
                },
                None => {},
            }
            first = false;
            proof {
                let next = params_rest(c, self.pos(), close, false, parameter_views(parameters@));
                assert(whole == after((self.pos() - p) as nat, errors, next));
                assert(total == after((p - origin) as nat, noted, whole));
                lemma_after_after((p - origin) as nat, noted, (self.pos() - p) as nat, errors, next);
                noted = noted + errors;
                self.lemma_lexed();
            }
        }
        Ok(parameters)
    }

    /// `Params := (ID ':' Type (',' ID ':' Type)* (',')? )?` between `open`
    /// and `close`. A malformed entry is recorded and skipped.
    pub fn parse_params(&mut self, open: TokenKind, close: TokenKind) -> (r: Result<
        Vec<Parameter>,
        ParseError,
    >)
        requires
            old(self).wf(),
            open != TokenKind::EOF,
            close != TokenKind::EOF,
        ensures
            old(self).yields(
                *final(self),
                r,
                params_at(old(self).lexed(), old(self).pos(), open, close),
            ),
    {
        broadcast use group_outcomes;

        reveal(params_at);
        proof {
            self.lemma_lexed();
        }
        match self.bump_expect(open) {
            Ok(_) => {},
            Err(error) => {
                return Err(error);
            },
        }
        let parameters = match self.parse_param_entries(close) {
            Ok(parameters) => parameters,
            Err(error) => {
                return Err(error);
            },
        };
        proof {
            lemma_parameters_deep(parameters);
        }
        self.bump_check(TokenKind::Comma);
        match self.bump_expect(close) {
            Ok(_) => Ok(parameters),
            Err(error) => Err(error),
        }
    }
}

} // verus!
