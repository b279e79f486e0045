//! Whatever the grammar reads lies within the tokens, and reading a
//! construct moves forward. The tests on positions in the functions of the
//! grammar therefore always hold.

use vstd::prelude::*;
use crate::grammar::{
    addition, addition_rest, arguments, arguments_rest, binary, block, braced,
    call_or_assignment, comparison_rest, declaration, expression, factor, function_declaration,
    function_head, if_statement, is_addition_operator, is_comparison_operator, is_keyword,
    is_punctuation, is_term_operator, parameters, program, remaining, start_of, statement,
    term, term_rest, terminated, token_at, while_statement, Parsed, Start,
};
use crate::lexer::TokenModel;
use crate::parser::Type;
use crate::syntax::{ExprModel, StmtModel};

verus! {

/// What was read ends after `pos` and within the tokens.
pub open spec fn advances<T>(read: Parsed<T>, ts: Seq<TokenModel>, pos: int) -> bool {
    read matches Ok((_, next)) ==> pos < next <= ts.len()
}

/// What was read ends at `pos` or after it, and within the tokens if `pos`
/// lies within them.
pub open spec fn holds_ground<T>(read: Parsed<T>, ts: Seq<TokenModel>, pos: int) -> bool {
    read matches Ok((_, next)) ==> pos <= next && (pos <= ts.len() ==> next <= ts.len())
}

pub proof fn lemma_factor(ts: Seq<TokenModel>, pos: int)
    ensures
        advances(factor(ts, pos), ts, pos),
    decreases remaining(ts, pos), 0int,
{
    match token_at(ts, pos) {
        Some(TokenModel::Identifier(name)) => {
            if is_punctuation(ts, pos + 1, "("@) {
                lemma_arguments(ts, pos + 2);
            }
        },
        Some(TokenModel::Punctuation(p)) => {
            if p == "("@ {
                lemma_expression(ts, pos + 1);
            }
        },
        _ => {},
    }
}

pub proof fn lemma_term_rest(ts: Seq<TokenModel>, pos: int, left: ExprModel)
    ensures
        holds_ground(term_rest(ts, pos, left), ts, pos),
    decreases remaining(ts, pos), 1int,
{
    if let Some(TokenModel::Operator(op)) = token_at(ts, pos) {
        if is_term_operator(op) {
            lemma_factor(ts, pos + 1);
            if let Ok((right, next)) = factor(ts, pos + 1) {
                lemma_term_rest(ts, next, binary(left, op, right));
            }
        }
    }
}

pub proof fn lemma_term(ts: Seq<TokenModel>, pos: int)
    ensures
        advances(term(ts, pos), ts, pos),
    decreases remaining(ts, pos), 2int,
{
    lemma_factor(ts, pos);
    if let Ok((left, next)) = factor(ts, pos) {
        lemma_term_rest(ts, next, left);
    }
}

pub proof fn lemma_addition_rest(ts: Seq<TokenModel>, pos: int, left: ExprModel)
    ensures
        holds_ground(addition_rest(ts, pos, left), ts, pos),
    decreases remaining(ts, pos), 3int,
{
    if let Some(TokenModel::Operator(op)) = token_at(ts, pos) {
        if is_addition_operator(op) {
            lemma_term(ts, pos + 1);
            if let Ok((right, next)) = term(ts, pos + 1) {
                lemma_addition_rest(ts, next, binary(left, op, right));
            }
        }
    }
}

pub proof fn lemma_addition(ts: Seq<TokenModel>, pos: int)
    ensures
        advances(addition(ts, pos), ts, pos),
    decreases remaining(ts, pos), 4int,
{
    lemma_term(ts, pos);
    if let Ok((left, next)) = term(ts, pos) {
        lemma_addition_rest(ts, next, left);
    }
}

pub proof fn lemma_comparison_rest(ts: Seq<TokenModel>, pos: int, left: ExprModel)
    ensures
        holds_ground(comparison_rest(ts, pos, left), ts, pos),
    decreases remaining(ts, pos), 5int,
{
    if let Some(TokenModel::Operator(op)) = token_at(ts, pos) {
        if is_comparison_operator(op) {
            lemma_addition(ts, pos + 1);
            if let Ok((right, next)) = addition(ts, pos + 1) {
                lemma_comparison_rest(ts, next, binary(left, op, right));
            }
        }
    }
}

/// An expression that was read ends after where it starts and within the
/// tokens.
pub proof fn lemma_expression(ts: Seq<TokenModel>, pos: int)
    ensures
        advances(expression(ts, pos), ts, pos),
    decreases remaining(ts, pos), 6int,
{
    lemma_addition(ts, pos);
    if let Ok((left, next)) = addition(ts, pos) {
        lemma_comparison_rest(ts, next, left);
    }
}

pub proof fn lemma_arguments_rest(ts: Seq<TokenModel>, pos: int, read: Seq<ExprModel>)
    ensures
        advances(arguments_rest(ts, pos, read), ts, pos),
        arguments_rest(ts, pos, read) matches Ok((_, next)) ==> next < ts.len(),
    decreases remaining(ts, pos), 7int,
{
    lemma_expression(ts, pos);
    if let Ok((argument, next)) = expression(ts, pos) {
        if !is_punctuation(ts, next, ")"@) && is_punctuation(ts, next, ","@) {
            lemma_arguments_rest(ts, next + 1, read.push(argument));
        }
    }
}

pub proof fn lemma_arguments(ts: Seq<TokenModel>, pos: int)
    ensures
        arguments(ts, pos) matches Ok((_, next)) ==> pos <= next < ts.len(),
    decreases remaining(ts, pos), 8int,
{
    if !is_punctuation(ts, pos, ")"@) {
        lemma_arguments_rest(ts, pos, Seq::empty());
    }
}

pub proof fn lemma_terminated(ts: Seq<TokenModel>, pos: int)
    ensures
        advances(terminated(ts, pos), ts, pos),
{
    lemma_expression(ts, pos);
}

pub proof fn lemma_declaration(ts: Seq<TokenModel>, pos: int)
    ensures
        advances(declaration(ts, pos), ts, pos),
{
    reveal(declaration);
    lemma_terminated(ts, pos + 2);
    lemma_terminated(ts, pos + 4);
}

pub proof fn lemma_call_or_assignment(ts: Seq<TokenModel>, pos: int, name: Seq<char>)
    ensures
        advances(call_or_assignment(ts, pos, name), ts, pos),
{
    reveal(call_or_assignment);
    lemma_arguments(ts, pos + 1);
    lemma_terminated(ts, pos + 1);
}

pub proof fn lemma_parameters(ts: Seq<TokenModel>, pos: int, read: Seq<(Seq<char>, Type)>)
    ensures
        holds_ground(parameters(ts, pos, read), ts, pos),
    decreases remaining(ts, pos),
{
    if let Some(TokenModel::Identifier(name)) = token_at(ts, pos) {
        if let Ok(_) = crate::grammar::expect(ts, pos + 1, crate::grammar::Expected::Colon) {
            if let Ok(param_type) = crate::grammar::type_at(ts, pos + 2) {
                if is_punctuation(ts, pos + 3, ","@) {
                    lemma_parameters(ts, pos + 4, read.push((name, param_type)));
                }
            }
        }
    }
}

pub proof fn lemma_function_head(ts: Seq<TokenModel>, pos: int)
    ensures
        advances(function_head(ts, pos), ts, pos),
{
    reveal(function_head);
    lemma_parameters(ts, pos + 2, Seq::empty());
}

pub proof fn lemma_while_statement(ts: Seq<TokenModel>, pos: int)
    requires
        token_at(ts, pos) is Some,
    ensures
        advances(while_statement(ts, pos), ts, pos),
    decreases remaining(ts, pos), 5int,
{
    lemma_expression(ts, pos + 1);
    if let Ok((test, next)) = expression(ts, pos + 1) {
        lemma_braced(ts, next);
    }
}

pub proof fn lemma_if_statement(ts: Seq<TokenModel>, pos: int)
    requires
        token_at(ts, pos) is Some,
    ensures
        advances(if_statement(ts, pos), ts, pos),
    decreases remaining(ts, pos), 6int,
{
    lemma_expression(ts, pos + 1);
    if let Ok((test, next)) = expression(ts, pos + 1) {
        lemma_braced(ts, next);
        if let Ok((then_block, after)) = braced(ts, next) {
            if is_keyword(ts, after, "else"@) {
                lemma_braced(ts, after + 1);
            }
        }
    }
}

pub proof fn lemma_function_declaration(ts: Seq<TokenModel>, pos: int)
    requires
        token_at(ts, pos) is Some,
    ensures
        advances(function_declaration(ts, pos), ts, pos),
    decreases remaining(ts, pos), 7int,
{
    lemma_function_head(ts, pos + 1);
    if let Ok((head, next)) = function_head(ts, pos + 1) {
        lemma_braced(ts, next);
    }
}

/// A statement that was read ends after where it starts and within the
/// tokens; where there is none, nothing was read.
pub proof fn lemma_statement(ts: Seq<TokenModel>, pos: int)
    ensures
        match statement(ts, pos) {
            Ok((Some(_), next)) => pos < next <= ts.len(),
            Ok((None, next)) => next == pos && token_at(ts, pos) == Some(TokenModel::EOF),
            Err(_) => true,
        },
    decreases remaining(ts, pos), 9int,
{
    match start_of(token_at(ts, pos)) {
        Start::Name(name) => {
            lemma_call_or_assignment(ts, pos + 1, name);
        },
        Start::Block => {
            lemma_braced(ts, pos);
        },
        Start::Declaration => {
            lemma_declaration(ts, pos + 1);
        },
        Start::Print => {
            lemma_terminated(ts, pos + 1);
        },
        Start::Return => {
            lemma_terminated(ts, pos + 1);
        },
        Start::While => {
            lemma_while_statement(ts, pos);
        },
        Start::If => {
            lemma_if_statement(ts, pos);
        },
        Start::Function => {
            lemma_function_declaration(ts, pos);
        },
        _ => {},
    }
}

pub proof fn lemma_block(ts: Seq<TokenModel>, pos: int, read: Seq<StmtModel>)
    ensures
        holds_ground(block(ts, pos, read), ts, pos),
    decreases remaining(ts, pos), 10int,
{
    if !(token_at(ts, pos) is None || is_punctuation(ts, pos, "}"@) || token_at(ts, pos) == Some(
        TokenModel::EOF,
    )) {
        lemma_statement(ts, pos);
        if let Ok((Some(s), next)) = statement(ts, pos) {
            lemma_block(ts, next, read.push(s));
        }
    }
}

pub proof fn lemma_braced(ts: Seq<TokenModel>, pos: int)
    ensures
        advances(braced(ts, pos), ts, pos),
    decreases remaining(ts, pos + 1), 11int,
{
    if token_at(ts, pos) is Some {
        lemma_block(ts, pos + 1, Seq::empty());
    }
}

/// A program that was read ends at the end marker.
pub proof fn lemma_program(ts: Seq<TokenModel>, pos: int, read: Seq<StmtModel>)
    ensures
        program(ts, pos, read) matches Ok((_, end)) ==> pos <= end < ts.len() && ts[end]
            == TokenModel::EOF,
    decreases remaining(ts, pos),
{
    lemma_statement(ts, pos);
    if let Ok((Some(s), next)) = statement(ts, pos) {
        lemma_program(ts, next, read.push(s));
    }
}

} // verus!
