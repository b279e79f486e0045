//! How a syntax tree is written down in tokens. Parentheses are written
//! only where the tree would otherwise be read differently. The module
//! `readback` shows that the grammar reads back what was written.

use vstd::prelude::*;
use crate::grammar::{is_addition_operator, is_comparison_operator, is_term_operator};
use crate::lexer::TokenModel;
use crate::parser::Type;
use crate::syntax::{ExprModel, StmtModel};

verus! {

pub open spec fn keyword(text: Seq<char>) -> TokenModel {
    TokenModel::Keyword(text)
}

pub open spec fn mark(text: Seq<char>) -> TokenModel {
    TokenModel::Punctuation(text)
}

pub open spec fn open_paren() -> TokenModel {
    mark("("@)
}

pub open spec fn close_paren() -> TokenModel {
    mark(")"@)
}

pub open spec fn comma() -> TokenModel {
    mark(","@)
}

pub open spec fn assign() -> TokenModel {
    TokenModel::Operator("="@)
}

/// How tightly an expression holds together: 3 for a literal, a variable or
/// a call, 2 for `*` and `/`, 1 for `+` and `-`, 0 for a comparison.
pub open spec fn rank(e: ExprModel) -> int {
    match e {
        ExprModel::Binary { left, operator, right } => {
            if is_term_operator(operator) {
                2
            } else if is_addition_operator(operator) {
                1
            } else {
                0
            }
        },
        _ => 3,
    }
}

/// The operators of every binary operation in `e` are operators of the
/// language.
pub open spec fn writable(e: ExprModel) -> bool
    decreases e,
{
    match e {
        ExprModel::Binary { left, operator, right } => {
            &&& is_term_operator(operator) || is_addition_operator(operator)
                || is_comparison_operator(operator)
            &&& writable(*left)
            &&& writable(*right)
        },
        ExprModel::Call { name, arguments } => forall|i: int|
            0 <= i < arguments.len() ==> writable(#[trigger] arguments[i]),
        _ => true,
    }
}

/// The tokens of `e` without parentheses around the whole.
pub open spec fn plain(e: ExprModel) -> Seq<TokenModel>
    decreases e, 0int,
{
    match e {
        ExprModel::Number(n) => seq![TokenModel::Number(n)],
        ExprModel::Bool(b) => seq![TokenModel::Bool(b)],
        ExprModel::Variable(name) => seq![TokenModel::Identifier(name)],
        ExprModel::Binary { left, operator, right } => written(*left, rank(e)) + seq![
            TokenModel::Operator(operator),
        ] + written(*right, rank(e) + 1),
        ExprModel::Call { name, arguments } => seq![TokenModel::Identifier(name), open_paren()]
            + written_arguments(arguments) + seq![close_paren()],
    }
}

/// The tokens of `e` in a place that holds expressions of rank `least` or
/// more: in parentheses if its rank is less.
pub open spec fn written(e: ExprModel, least: int) -> Seq<TokenModel>
    decreases e, 1int,
{
    if rank(e) < least {
        seq![open_paren()] + plain(e) + seq![close_paren()]
    } else {
        plain(e)
    }
}

/// The tokens of the arguments of a call, with commas between them.
pub open spec fn written_arguments(arguments: Seq<ExprModel>) -> Seq<TokenModel>
    decreases arguments, 0int,
{
    if arguments.len() == 0 {
        Seq::empty()
    } else if arguments.len() == 1 {
        written(arguments[0], 0)
    } else {
        written(arguments[0], 0) + seq![comma()] + written_arguments(arguments.drop_first())
    }
}

/// The token that names a type. `Void` has no name: it is what a function
/// without a result type returns.
pub open spec fn type_token(named: Type) -> TokenModel {
    match named {
        Type::Number => TokenModel::Type("number"@),
        _ => TokenModel::Type("bool"@),
    }
}

/// The tokens of the parameters of a function, with commas between them.
pub open spec fn written_parameters(params: Seq<(Seq<char>, Type)>) -> Seq<TokenModel>
    decreases params.len(),
{
    if params.len() == 0 {
        Seq::empty()
    } else {
        let first = seq![TokenModel::Identifier(params[0].0), mark(":"@), type_token(params[0].1)];
        if params.len() == 1 {
            first
        } else {
            first + seq![comma()] + written_parameters(params.drop_first())
        }
    }
}

/// The tokens of the head of a function declaration, from its name to
/// before its body.
pub open spec fn written_head(name: Seq<char>, params: Seq<(Seq<char>, Type)>, result: Type) -> Seq<
    TokenModel,
> {
    seq![TokenModel::Identifier(name), open_paren()] + written_parameters(params) + seq![
        close_paren(),
    ] + (if result is Void {
        Seq::empty()
    } else {
        seq![mark(":"@), type_token(result)]
    })
}

/// The tokens of a statement.
pub open spec fn written_statement(s: StmtModel) -> Seq<TokenModel>
    decreases s, 0int,
{
    match s {
        StmtModel::Declaration { name, value, declared } => match declared {
            None => seq![keyword("let"@), TokenModel::Identifier(name), assign()] + written(
                value,
                0,
            ) + seq![mark(";"@)],
            Some(named) => seq![
                keyword("let"@),
                TokenModel::Identifier(name),
                mark(":"@),
                type_token(named),
                assign(),
            ] + written(value, 0) + seq![mark(";"@)],
        },
        StmtModel::Assignment { name, value } => seq![TokenModel::Identifier(name), assign()]
            + written(value, 0) + seq![mark(";"@)],
        StmtModel::Print(value) => seq![keyword("croak"@)] + written(value, 0) + seq![mark(";"@)],
        StmtModel::Return(value) => seq![keyword("return"@)] + written(value, 0) + seq![
            mark(";"@),
        ],
        StmtModel::Expression(value) => written(value, 0) + seq![mark(";"@)],
        StmtModel::While { condition, body } => seq![keyword("while"@)] + written(condition, 0)
            + in_braces(body),
        StmtModel::Block(body) => in_braces(body),
        StmtModel::If { condition, then_block, else_block } => seq![keyword("if"@)] + written(
            condition,
            0,
        ) + in_braces(then_block) + match else_block {
            Some(block) => seq![keyword("else"@)] + in_braces(block),
            None => Seq::empty(),
        },
        StmtModel::FunctionDeclaration { name, params, return_type, body } => seq![
            keyword("func"@),
        ] + written_head(name, params, return_type) + in_braces(body),
    }
}

/// The tokens of statements, one after the other.
pub open spec fn written_statements(statements: Seq<StmtModel>) -> Seq<TokenModel>
    decreases statements, 0int,
{
    if statements.len() == 0 {
        Seq::empty()
    } else {
        written_statement(statements[0]) + written_statements(statements.drop_first())
    }
}

/// The tokens of a block: its statements in braces.
pub open spec fn in_braces(statements: Seq<StmtModel>) -> Seq<TokenModel>
    decreases statements, 1int,
{
    seq![mark("{"@)] + written_statements(statements) + seq![mark("}"@)]
}

/// Whether the grammar has a way to write `s`: its expressions are
/// writable, no variable or parameter is declared `Void`, and an expression
/// that stands as a statement is a call.
pub open spec fn writable_statement(s: StmtModel) -> bool
    decreases s, 0int,
{
    match s {
        StmtModel::Declaration { name, value, declared } => writable(value) && declared != Some(
            Type::Void,
        ),
        StmtModel::Assignment { name, value } => writable(value),
        StmtModel::Print(value) => writable(value),
        StmtModel::Return(value) => writable(value),
        StmtModel::Expression(value) => writable(value) && value is Call,
        StmtModel::While { condition, body } => writable(condition) && writable_statements(body),
        StmtModel::Block(body) => writable_statements(body),
        StmtModel::If { condition, then_block, else_block } => {
            &&& writable(condition)
            &&& writable_statements(then_block)
            &&& match else_block {
                Some(block) => writable_statements(block),
                None => true,
            }
        },
        StmtModel::FunctionDeclaration { name, params, return_type, body } => {
            &&& forall|i: int| 0 <= i < params.len() ==> !((#[trigger] params[i]).1 is Void)
            &&& writable_statements(body)
        },
    }
}

pub open spec fn writable_statements(statements: Seq<StmtModel>) -> bool
    decreases statements, 1int,
{
    forall|i: int| 0 <= i < statements.len() ==> writable_statement(#[trigger] statements[i])
}

/// The tokens `written` stand in `ts` from `pos` on.
pub open spec fn stands(ts: Seq<TokenModel>, pos: int, written: Seq<TokenModel>) -> bool {
    &&& 0 <= pos
    &&& pos + written.len() <= ts.len()
    &&& ts.subrange(pos, pos + written.len()) == written
}

} // verus!
