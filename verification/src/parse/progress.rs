//! The grammar always has an answer: on the tokens of any text, every
//! production ends with the cursor on a token, and none ends in the stand-in
//! for a missing answer.
use crate::ast::token::TokenKind;
use crate::ast::{ExpressionView, ParameterView, StatementView, TypeView};
use crate::parse::grammar::{
    block_at, closing, closure_at, elements_rest, ends_skip, enum_at, expect, expr_at,
    function_at, if_at, infix_at, infix_power, binary_operator, let_at, list_at, name_at,
    param_at, params_at, params_rest, paren_at, prefix_at, prefix_power, program, program_rest,
    skipped, starts_entry, statement_at, statements_rest, struct_at, type_args_at,
    type_args_rest, type_at, type_fn_at, type_list_at, unary_operator, variants_rest, ErrorView,
    Lexed, Outcome,
};
use crate::parse::stream::{lemma_lexed_text, lexed_text};
use vstd::prelude::*;

verus! {

/// Whether the outcome `o` of a production that began at position `p` leaves
/// the cursor on a token, and is an answer of the grammar.
pub open spec fn settled<T>(c: Lexed, p: nat, o: Outcome<T>) -> bool {
    &&& p + o.used < c.tokens.len()
    &&& !(o.result matches Err(ErrorView::OuterExpression))
}

/// The skipping after a malformed entry stops on a token that ends it.
pub proof fn lemma_skipped_stops(c: Lexed, p: nat, types: bool, close: TokenKind)
    requires
        c.wf(),
        p < c.tokens.len(),
    ensures
        p + skipped(c, p, types, close) < c.tokens.len(),
        ends_skip(c.kind(p + skipped(c, p, types, close)), types, close),
    decreases c.rest(p),
{
    if !ends_skip(c.kind(p), types, close) {
        lemma_skipped_stops(c, p + 1, types, close);
    }
}

/// A type has an answer, and takes a token where one can begin it.
pub proof fn lemma_type_at(c: Lexed, p: nat)
    requires
        c.wf(),
        p < c.tokens.len(),
    ensures
        settled(c, p, type_at(c, p)),
        starts_entry(c.kind(p), true) || type_at(c, p).ok() ==> type_at(c, p).used >= 1,
    decreases c.rest(p), 2nat, 0nat,
{
    reveal(type_at);
    reveal(type_args_at);
    reveal(type_list_at);
    reveal(type_fn_at);
    if c.kind(p) == TokenKind::OpenParen {
        lemma_type_args_at(c, p, TokenKind::OpenParen, TokenKind::CloseParen);
    } else if c.kind(p) == TokenKind::OpenBracket {
        lemma_type_list_at(c, p);
    } else if c.kind(p) == TokenKind::Fn {
        lemma_type_fn_at(c, p);
    }
}

/// A list type has an answer.
pub proof fn lemma_type_list_at(c: Lexed, p: nat)
    requires
        c.wf(),
        p < c.tokens.len(),
        c.kind(p) == TokenKind::OpenBracket,
    ensures
        settled(c, p, type_list_at(c, p)),
        type_list_at(c, p).used >= 1,
    decreases c.rest(p), 1nat, 0nat,
{
    reveal(type_list_at);
    reveal(type_at);
    lemma_type_at(c, p + 1);
}

/// A function type has an answer.
pub proof fn lemma_type_fn_at(c: Lexed, p: nat)
    requires
        c.wf(),
        p < c.tokens.len(),
        c.kind(p) == TokenKind::Fn,
    ensures
        settled(c, p, type_fn_at(c, p)),
        type_fn_at(c, p).used >= 1,
    decreases c.rest(p), 1nat, 0nat,
{
    reveal(type_fn_at);
    reveal(type_args_at);
    reveal(type_at);
    lemma_type_args_at(c, p + 1, TokenKind::OpenParen, TokenKind::CloseParen);
    let arguments = type_args_at(c, p + 1, TokenKind::OpenParen, TokenKind::CloseParen);
    if arguments.ok() && expect(c, p + 1 + arguments.used, TokenKind::RArrow).ok() {
        lemma_type_at(c, p + 1 + arguments.used + 1);
    }
}

/// A list of types has an answer.
pub proof fn lemma_type_args_at(c: Lexed, p: nat, open: TokenKind, close: TokenKind)
    requires
        c.wf(),
        p < c.tokens.len(),
        open != TokenKind::EOF,
        close != TokenKind::EOF,
    ensures
        settled(c, p, type_args_at(c, p, open, close)),
        c.kind(p) == open ==> type_args_at(c, p, open, close).used >= 1,
    decreases c.rest(p), 1nat, 0nat,
{
    reveal(type_args_at);
    reveal(type_args_rest);
    if c.kind(p) == open {
        lemma_type_args_rest(c, p + 1, close, true, Seq::empty());
    }
}

/// The entries of a list of types have an answer.
pub proof fn lemma_type_args_rest(
    c: Lexed,
    p: nat,
    close: TokenKind,
    first: bool,
    acc: Seq<TypeView>,
)
    requires
        c.wf(),
        p < c.tokens.len(),
        close != TokenKind::EOF,
    ensures
        settled(c, p, type_args_rest(c, p, close, first, acc)),
    decreases c.rest(p), 3nat, (if first {
        1nat
    } else {
        0nat
    }),
{
    reveal(type_args_rest);
    reveal(type_at);
    if !(c.kind(p) == close || (c.peek(p, 1).kind == close && !first)) {
        let comma = expect(c, p, TokenKind::Comma);
        let here = if first {
            p
        } else {
            p + comma.used
        };
        let found = c.peek(here, 0);
        if found.kind == TokenKind::Comma || starts_entry(found.kind, true) {
            lemma_type_at(c, here);
            let entry = type_at(c, here);
            if entry.ok() {
                lemma_type_args_rest(c, here + entry.used, close, false, acc.push(entry.value()));
            } else {
                lemma_skipped_stops(c, here + entry.used, true, close);
                let onward = here + entry.used + skipped(c, here + entry.used, true, close);
                if (c.kind(onward) == TokenKind::Comma || c.kind(onward) == close || starts_entry(
                    c.kind(onward),
                    true,
                )) && !(onward == p && !first) {
                    lemma_type_args_rest(c, onward, close, false, acc);
                }
            }
        }
    }
}

/// A parameter has an answer, and takes a token where it begins with a name.
pub proof fn lemma_param_at(c: Lexed, p: nat)
    requires
        c.wf(),
        p < c.tokens.len(),
    ensures
        settled(c, p, param_at(c, p)),
        c.kind(p) == TokenKind::Identifier || param_at(c, p).ok() ==> param_at(c, p).used >= 1,
{
    reveal(param_at);
    if name_at(c, p).ok() && expect(c, p + 1, TokenKind::Colon).ok() {
        lemma_type_at(c, p + 2);
    }
}

/// The entries of a list of parameters have an answer.
pub proof fn lemma_params_rest(
    c: Lexed,
    p: nat,
    close: TokenKind,
    first: bool,
    acc: Seq<ParameterView>,
)
    requires
        c.wf(),
        p < c.tokens.len(),
        close != TokenKind::EOF,
    ensures
        settled(c, p, params_rest(c, p, close, first, acc)),
    decreases c.rest(p), (if first {
        1nat
    } else {
        0nat
    }),
{
    reveal(params_rest);
    if !(c.kind(p) == close || c.peek(p, 1).kind == close) {
        let comma = expect(c, p, TokenKind::Comma);
        let here = if first {
            p
        } else {
            p + comma.used
        };
        let found = c.peek(here, 0);
        if found.kind == TokenKind::Comma || starts_entry(found.kind, false) {
            lemma_param_at(c, here);
            let entry = param_at(c, here);
            if entry.ok() {
                lemma_params_rest(c, here + entry.used, close, false, acc.push(entry.value()));
            } else {
                lemma_skipped_stops(c, here + entry.used, false, close);
                let onward = here + entry.used + skipped(c, here + entry.used, false, close);
                if c.kind(onward) == TokenKind::Comma || c.kind(onward) == close || starts_entry(
                    c.kind(onward),
                    false,
                ) {
                    lemma_params_rest(c, onward, close, false, acc);
                }
            }
        }
    }
}

/// A list of parameters has an answer.
pub proof fn lemma_params_at(c: Lexed, p: nat, open: TokenKind, close: TokenKind)
    requires
        c.wf(),
        p < c.tokens.len(),
        open != TokenKind::EOF,
        close != TokenKind::EOF,
    ensures
        settled(c, p, params_at(c, p, open, close)),
        c.kind(p) == open ==> params_at(c, p, open, close).used >= 1,
{
    reveal(params_at);
    if c.kind(p) == open {
        lemma_params_rest(c, p + 1, close, true, Seq::empty());
    }
}

/// An expression has an answer, and takes a token where it succeeds.
pub proof fn lemma_expr_at(c: Lexed, p: nat, min_bp: u8)
    requires
        c.wf(),
        p < c.tokens.len(),
    ensures
        settled(c, p, expr_at(c, p, min_bp)),
        expr_at(c, p, min_bp).ok() ==> expr_at(c, p, min_bp).used >= 1,
    decreases c.rest(p), 6nat, 0nat,
{
    reveal(expr_at);
    reveal(prefix_at);
    reveal(infix_at);
    lemma_prefix_at(c, p);
    let head = prefix_at(c, p);
    if head.ok() {
        lemma_infix_at(c, p + head.used, min_bp, head.value());
    }
}

/// A prefix term has an answer, and takes a token where it succeeds.
pub proof fn lemma_prefix_at(c: Lexed, p: nat)
    requires
        c.wf(),
        p < c.tokens.len(),
    ensures
        settled(c, p, prefix_at(c, p)),
        prefix_at(c, p).ok() ==> prefix_at(c, p).used >= 1,
    decreases c.rest(p), 5nat, 0nat,
{
    reveal(prefix_at);
    reveal(closure_at);
    reveal(if_at);
    reveal(paren_at);
    reveal(list_at);
    reveal(block_at);
    reveal(expr_at);
    let token = c.peek(p, 0);
    match token.kind {
        TokenKind::BSlash => {
            lemma_closure_at(c, p);
        },
        TokenKind::If => {
            lemma_if_at(c, p);
        },
        TokenKind::OpenParen => {
            lemma_paren_at(c, p);
        },
        TokenKind::OpenBracket => {
            lemma_list_at(c, p);
        },
        TokenKind::OpenBrace => {
            lemma_block_at(c, p);
        },
        TokenKind::Bang | TokenKind::Op { .. } => {
            match unary_operator(token.kind) {
                Some(op) => {
                    lemma_expr_at(c, p + 1, prefix_power(op));
                },
                None => {},
            }
        },
        _ => {},
    }
}

/// The binary operations after an expression have an answer.
pub proof fn lemma_infix_at(c: Lexed, p: nat, min_bp: u8, lhs: ExpressionView)
    requires
        c.wf(),
        p < c.tokens.len(),
    ensures
        settled(c, p, infix_at(c, p, min_bp, lhs)),
    decreases c.rest(p), 5nat, 0nat,
{
    reveal(infix_at);
    reveal(expr_at);
    match binary_operator(c.kind(p)) {
        Some(op) => {
            if infix_power(op).0 >= min_bp {
                lemma_expr_at(c, p + 1, infix_power(op).1);
                let rhs = expr_at(c, p + 1, infix_power(op).1);
                if rhs.ok() {
                    lemma_infix_at(
                        c,
                        p + 1 + rhs.used,
                        min_bp,
                        ExpressionView::Binary {
                            lhs: Box::new(lhs),
                            rhs: Box::new(rhs.value()),
                            op,
                        },
                    );
                }
            }
        },
        None => {},
    }
}

/// What begins with `(` has an answer.
pub proof fn lemma_paren_at(c: Lexed, p: nat)
    requires
        c.wf(),
        p < c.tokens.len(),
        c.kind(p) == TokenKind::OpenParen,
    ensures
        settled(c, p, paren_at(c, p)),
        paren_at(c, p).ok() ==> paren_at(c, p).used >= 1,
    decreases c.rest(p), 4nat, 0nat,
{
    reveal(paren_at);
    reveal(expr_at);
    reveal(elements_rest);
    lemma_expr_at(c, p + 1, 0);
    let inner = expr_at(c, p + 1, 0);
    if inner.ok() && c.kind(p + 1 + inner.used) == TokenKind::Comma {
        lemma_elements_rest(
            c,
            p + 1 + inner.used + 1,
            TokenKind::CloseParen,
            true,
            seq![inner.value()],
        );
    }
}

/// A list literal has an answer.
pub proof fn lemma_list_at(c: Lexed, p: nat)
    requires
        c.wf(),
        p < c.tokens.len(),
        c.kind(p) == TokenKind::OpenBracket,
    ensures
        settled(c, p, list_at(c, p)),
        list_at(c, p).ok() ==> list_at(c, p).used >= 1,
    decreases c.rest(p), 4nat, 0nat,
{
    reveal(list_at);
    reveal(elements_rest);
    lemma_elements_rest(c, p + 1, TokenKind::CloseBracket, true, Seq::empty());
}

/// The expressions of a tuple or list have an answer.
pub proof fn lemma_elements_rest(
    c: Lexed,
    p: nat,
    close: TokenKind,
    first: bool,
    acc: Seq<ExpressionView>,
)
    requires
        c.wf(),
        p < c.tokens.len(),
        close != TokenKind::EOF,
    ensures
        settled(c, p, elements_rest(c, p, close, first, acc)),
    decreases c.rest(p), 9nat, (if first {
        1nat
    } else {
        0nat
    }),
{
    reveal(elements_rest);
    reveal(expr_at);
    if !(c.kind(p) == close || (c.peek(p, 1).kind == close && !first)) {
        let comma = expect(c, p, TokenKind::Comma);
        let here = if first {
            p
        } else {
            p + comma.used
        };
        lemma_expr_at(c, here, 0);
        let item = expr_at(c, here, 0);
        if item.ok() {
            lemma_elements_rest(c, here + item.used, close, false, acc.push(item.value()));
        }
    }
}

/// A closure has an answer.
pub proof fn lemma_closure_at(c: Lexed, p: nat)
    requires
        c.wf(),
        p < c.tokens.len(),
        c.kind(p) == TokenKind::BSlash,
    ensures
        settled(c, p, closure_at(c, p)),
        closure_at(c, p).ok() ==> closure_at(c, p).used >= 1,
    decreases c.rest(p), 4nat, 0nat,
{
    reveal(closure_at);
    reveal(block_at);
    lemma_params_at(c, p + 1, TokenKind::OpenParen, TokenKind::CloseParen);
    let arguments = params_at(c, p + 1, TokenKind::OpenParen, TokenKind::CloseParen);
    if arguments.ok() && expect(c, p + 1 + arguments.used, TokenKind::RArrow).ok() {
        lemma_type_at(c, p + 1 + arguments.used + 1);
        let return_type = type_at(c, p + 1 + arguments.used + 1);
        if return_type.ok() {
            lemma_block_at(c, p + 1 + arguments.used + 1 + return_type.used);
        }
    }
}

/// An `if` has an answer.
pub proof fn lemma_if_at(c: Lexed, p: nat)
    requires
        c.wf(),
        p < c.tokens.len(),
        c.kind(p) == TokenKind::If,
    ensures
        settled(c, p, if_at(c, p)),
        if_at(c, p).ok() ==> if_at(c, p).used >= 1,
    decreases c.rest(p), 4nat, 0nat,
{
    reveal(if_at);
    reveal(expr_at);
    reveal(block_at);
    lemma_expr_at(c, p + 1, 0);
    let condition = expr_at(c, p + 1, 0);
    if condition.ok() {
        lemma_block_at(c, p + 1 + condition.used);
        let body = block_at(c, p + 1 + condition.used);
        if body.ok() {
            let q = p + 1 + condition.used + body.used;
            if c.kind(q) == TokenKind::Else {
                if c.kind(q + 1) == TokenKind::If {
                    lemma_if_at(c, q + 1);
                } else {
                    lemma_block_at(c, q + 1);
                }
            }
        }
    }
}

/// A block has an answer, and takes a token where it succeeds.
pub proof fn lemma_block_at(c: Lexed, p: nat)
    requires
        c.wf(),
        p < c.tokens.len(),
    ensures
        settled(c, p, block_at(c, p)),
        block_at(c, p).ok() ==> block_at(c, p).used >= 1,
    decreases c.rest(p), 4nat, 0nat,
{
    reveal(block_at);
    reveal(statements_rest);
    if c.kind(p) == TokenKind::OpenBrace {
        lemma_statements_rest(c, p + 1, Seq::empty());
    }
}

/// The statements of a block have an answer, which is never a failure.
pub proof fn lemma_statements_rest(c: Lexed, p: nat, acc: Seq<StatementView>)
    requires
        c.wf(),
        p < c.tokens.len(),
    ensures
        settled(c, p, statements_rest(c, p, acc)),
        statements_rest(c, p, acc).ok(),
    decreases c.rest(p), 9nat, 0nat,
{
    reveal(statements_rest);
    reveal(statement_at);
    if c.kind(p) != TokenKind::CloseBrace {
        lemma_statement_at(c, p);
        let item = statement_at(c, p);
        if item.ok() && !(item.value() is EOF) {
            lemma_statements_rest(c, p + item.used, acc.push(item.value()));
        }
    }
}

/// A statement has an answer, and takes a token unless it stands for the
/// end of input.
pub proof fn lemma_statement_at(c: Lexed, p: nat)
    requires
        c.wf(),
        p < c.tokens.len(),
    ensures
        settled(c, p, statement_at(c, p)),
        statement_at(c, p).ok() && !(statement_at(c, p).value() is EOF) ==> statement_at(
            c,
            p,
        ).used >= 1,
    decreases c.rest(p), 8nat, 0nat,
{
    reveal(statement_at);
    reveal(function_at);
    reveal(let_at);
    reveal(expr_at);
    match c.kind(p) {
        TokenKind::Fn => {
            lemma_function_at(c, p);
        },
        TokenKind::Struct => {
            lemma_struct_at(c, p);
        },
        TokenKind::Enum => {
            lemma_enum_at(c, p);
        },
        TokenKind::Let => {
            lemma_let_at(c, p);
        },
        TokenKind::EOF => {},
        _ => {
            lemma_expr_at(c, p, 0);
        },
    }
}

/// A function has an answer.
pub proof fn lemma_function_at(c: Lexed, p: nat)
    requires
        c.wf(),
        p < c.tokens.len(),
        c.kind(p) == TokenKind::Fn,
    ensures
        settled(c, p, function_at(c, p)),
        function_at(c, p).ok() ==> function_at(c, p).used >= 1 && !(function_at(c, p).value()
            is EOF),
    decreases c.rest(p), 7nat, 0nat,
{
    reveal(function_at);
    reveal(block_at);
    if name_at(c, p + 1).ok() {
        lemma_params_at(c, p + 2, TokenKind::OpenParen, TokenKind::CloseParen);
        let arguments = params_at(c, p + 2, TokenKind::OpenParen, TokenKind::CloseParen);
        if arguments.ok() && expect(c, p + 2 + arguments.used, TokenKind::RArrow).ok() {
            lemma_type_at(c, p + 2 + arguments.used + 1);
            let return_type = type_at(c, p + 2 + arguments.used + 1);
            if return_type.ok() {
                lemma_block_at(c, p + 2 + arguments.used + 1 + return_type.used);
            }
        }
    }
}

/// A `let` has an answer.
pub proof fn lemma_let_at(c: Lexed, p: nat)
    requires
        c.wf(),
        p < c.tokens.len(),
        c.kind(p) == TokenKind::Let,
    ensures
        settled(c, p, let_at(c, p)),
        let_at(c, p).ok() ==> let_at(c, p).used >= 1 && !(let_at(c, p).value() is EOF),
    decreases c.rest(p), 7nat, 0nat,
{
    reveal(let_at);
    reveal(expr_at);
    if name_at(c, p + 1).ok() && expect(c, p + 2, TokenKind::Eq).ok() {
        lemma_expr_at(c, p + 3, 0);
    }
}

/// A struct has an answer.
pub proof fn lemma_struct_at(c: Lexed, p: nat)
    requires
        c.wf(),
        p < c.tokens.len(),
        c.kind(p) == TokenKind::Struct,
    ensures
        settled(c, p, struct_at(c, p)),
        struct_at(c, p).ok() ==> struct_at(c, p).used >= 1 && !(struct_at(c, p).value() is EOF),
{
    reveal(struct_at);
    if name_at(c, p + 1).ok() {
        lemma_params_at(c, p + 2, TokenKind::OpenBrace, TokenKind::CloseBrace);
    }
}

/// The variants of an enum have an answer.
pub proof fn lemma_variants_rest(c: Lexed, p: nat, acc: Seq<Seq<char>>)
    requires
        c.wf(),
        p < c.tokens.len(),
    ensures
        settled(c, p, variants_rest(c, p, acc)),
    decreases c.rest(p),
{
    reveal(variants_rest);
    if c.kind(p) == TokenKind::Identifier && c.kind(p + 1) == TokenKind::Comma {
        lemma_variants_rest(c, p + 2, acc.push(c.text(p)));
    }
}

/// An enum has an answer.
pub proof fn lemma_enum_at(c: Lexed, p: nat)
    requires
        c.wf(),
        p < c.tokens.len(),
        c.kind(p) == TokenKind::Enum,
    ensures
        settled(c, p, enum_at(c, p)),
        enum_at(c, p).ok() ==> enum_at(c, p).used >= 1 && !(enum_at(c, p).value() is EOF),
{
    reveal(enum_at);
    if name_at(c, p + 1).ok() && expect(c, p + 2, TokenKind::OpenBrace).ok() {
        lemma_variants_rest(c, p + 3, Seq::empty());
    }
}

/// The statements of a program have an answer, which is never a failure.
pub proof fn lemma_program_rest(c: Lexed, p: nat, acc: Seq<StatementView>)
    requires
        c.wf(),
        p < c.tokens.len(),
    ensures
        settled(c, p, program_rest(c, p, acc)),
        program_rest(c, p, acc).ok(),
    decreases c.rest(p),
{
    reveal(program_rest);
    lemma_statement_at(c, p);
    let item = statement_at(c, p);
    if item.ok() && !(item.value() is EOF) {
        lemma_program_rest(c, p + item.used, acc.push(item.value()));
    }
}

/// On the tokens of any text, the statements of the program have an answer
/// that is no failure.
pub proof fn lemma_text_total(input: Seq<char>)
    ensures
        program_rest(lexed_text(input), 0, Seq::empty()).ok(),
        program(lexed_text(input)).0 == program_rest(lexed_text(input), 0, Seq::empty()).value(),
{
    lemma_lexed_text(input);
    lemma_program_rest(lexed_text(input), 0, Seq::empty());
}

/// Parsing never fails as a whole: whatever the tokens, it ends with the
/// statements that could be built, on a token, and what went wrong is among
/// the diagnostics.
pub proof fn lemma_program_total(c: Lexed)
    requires
        c.wf(),
    ensures
        program_rest(c, 0, Seq::empty()).ok(),
        program_rest(c, 0, Seq::empty()).used < c.tokens.len(),
        program(c).0 == program_rest(c, 0, Seq::empty()).value(),
{
    lemma_program_rest(c, 0, Seq::empty());
}

} // verus!
