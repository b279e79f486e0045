//! The grammar of the language, as functions from a token sequence and a
//! position to what is read there and where reading stops.
//!
//! From tightest to loosest: a factor is a literal, a variable, a call or an
//! expression in parentheses; terms join factors with `*` and `/`; additions
//! join terms with `+` and `-`; an expression joins additions with `==`, `>`
//! and `<`. Every level associates to the left.
//!
//! Several functions test on what a part of them read that it ends after
//! `pos`, and give no meaning to the other case. The test is there for the
//! termination argument of these definitions only: the module `progress`
//! shows that it always holds.

use vstd::prelude::*;
use crate::lexer::TokenModel;
use crate::parser::Type;
use crate::syntax::{ExprModel, StmtModel};

verus! {

/// What the parser needed where it failed.
#[derive(Debug, PartialEq, Eq, Clone, Copy, Structural)]
pub enum Expected {
    /// A name, after `let` or `func`.
    Identifier,
    /// `number` or `bool`.
    TypeName,
    /// `=` or `:` after the name in a declaration.
    Declarator,
    /// `=`.
    Assign,
    /// `;`.
    Semicolon,
    /// `{`.
    OpenBrace,
    /// `}`.
    CloseBrace,
    /// `(`.
    OpenParen,
    /// `)`.
    CloseParen,
    /// `:`.
    Colon,
    /// `:` or `{` after the parameters of a function.
    ReturnType,
    /// `,` or `)` after an argument of a call.
    ArgumentEnd,
    /// The start of an expression.
    Expression,
    /// The start of a statement.
    Statement,
}

/// A failure of the parser: what it needed, the token it found instead (none
/// where the tokens ran out) and the index of that token.
pub struct ParseErrorModel {
    pub expected: Expected,
    pub found: Option<TokenModel>,
    pub position: int,
}

/// What was read and the position after it, or the failure.
pub type Parsed<T> = Result<(T, int), ParseErrorModel>;

/// How many tokens lie at and after `pos`.
pub open spec fn remaining(ts: Seq<TokenModel>, pos: int) -> nat {
    if pos <= ts.len() {
        (ts.len() - pos) as nat
    } else {
        0
    }
}

pub open spec fn token_at(ts: Seq<TokenModel>, pos: int) -> Option<TokenModel> {
    if 0 <= pos < ts.len() {
        Some(ts[pos])
    } else {
        None
    }
}

pub open spec fn failure(ts: Seq<TokenModel>, pos: int, expected: Expected) -> ParseErrorModel {
    ParseErrorModel { expected, found: token_at(ts, pos), position: pos }
}

pub open spec fn is_punctuation(ts: Seq<TokenModel>, pos: int, text: Seq<char>) -> bool {
    token_at(ts, pos) == Some(TokenModel::Punctuation(text))
}

pub open spec fn is_operator(ts: Seq<TokenModel>, pos: int, text: Seq<char>) -> bool {
    token_at(ts, pos) == Some(TokenModel::Operator(text))
}

pub open spec fn is_keyword(ts: Seq<TokenModel>, pos: int, text: Seq<char>) -> bool {
    token_at(ts, pos) == Some(TokenModel::Keyword(text))
}

/// The one token that satisfies an expectation, for those that name one.
pub open spec fn required_token(expected: Expected) -> Option<TokenModel> {
    match expected {
        Expected::Assign => Some(TokenModel::Operator("="@)),
        Expected::Semicolon => Some(TokenModel::Punctuation(";"@)),
        Expected::OpenBrace => Some(TokenModel::Punctuation("{"@)),
        Expected::CloseBrace => Some(TokenModel::Punctuation("}"@)),
        Expected::OpenParen => Some(TokenModel::Punctuation("("@)),
        Expected::CloseParen => Some(TokenModel::Punctuation(")"@)),
        Expected::Colon => Some(TokenModel::Punctuation(":"@)),
        _ => None,
    }
}

/// Steps over the token that `expected` names, or fails.
pub open spec fn expect(ts: Seq<TokenModel>, pos: int, expected: Expected) -> Result<
    int,
    ParseErrorModel,
> {
    if required_token(expected) is Some && token_at(ts, pos) == required_token(expected) {
        Ok(pos + 1)
    } else {
        Err(failure(ts, pos, expected))
    }
}

/// The type that the token at `pos` names.
pub open spec fn type_at(ts: Seq<TokenModel>, pos: int) -> Result<Type, ParseErrorModel> {
    if token_at(ts, pos) == Some(TokenModel::Type("bool"@)) {
        Ok(Type::Boolean)
    } else if token_at(ts, pos) == Some(TokenModel::Type("number"@)) {
        Ok(Type::Number)
    } else {
        Err(failure(ts, pos, Expected::TypeName))
    }
}

/// The name that the token at `pos` holds.
pub open spec fn name_at(ts: Seq<TokenModel>, pos: int) -> Result<Seq<char>, ParseErrorModel> {
    match token_at(ts, pos) {
        Some(TokenModel::Identifier(name)) => Ok(name),
        _ => Err(failure(ts, pos, Expected::Identifier)),
    }
}

pub open spec fn binary(left: ExprModel, operator: Seq<char>, right: ExprModel) -> ExprModel {
    ExprModel::Binary { left: Box::new(left), operator, right: Box::new(right) }
}

pub open spec fn is_term_operator(op: Seq<char>) -> bool {
    op == "*"@ || op == "/"@
}

pub open spec fn is_addition_operator(op: Seq<char>) -> bool {
    op == "+"@ || op == "-"@
}

pub open spec fn is_comparison_operator(op: Seq<char>) -> bool {
    op == "=="@ || op == ">"@ || op == "<"@
}

/// A literal, a variable, a call, or an expression in parentheses.
pub open spec fn factor(ts: Seq<TokenModel>, pos: int) -> Parsed<ExprModel>
    decreases remaining(ts, pos), 0int,
{
    match token_at(ts, pos) {
        Some(TokenModel::Number(n)) => Ok((ExprModel::Number(n), pos + 1)),
        Some(TokenModel::Bool(b)) => Ok((ExprModel::Bool(b), pos + 1)),
        Some(TokenModel::Identifier(name)) => {
            if is_punctuation(ts, pos + 1, "("@) {
                match arguments(ts, pos + 2) {
                    Ok((args, next)) => match expect(ts, next, Expected::CloseParen) {
                        Ok(end) => Ok((ExprModel::Call { name, arguments: args }, end)),
                        Err(e) => Err(e),
                    },
                    Err(e) => Err(e),
                }
            } else {
                Ok((ExprModel::Variable(name), pos + 1))
            }
        },
        Some(TokenModel::Punctuation(p)) => {
            if p == "("@ {
                match expression(ts, pos + 1) {
                    Ok((inner, next)) => match expect(ts, next, Expected::CloseParen) {
                        Ok(end) => Ok((inner, end)),
                        Err(e) => Err(e),
                    },
                    Err(e) => Err(e),
                }
            } else {
                Err(failure(ts, pos, Expected::Expression))
            }
        },
        _ => Err(failure(ts, pos, Expected::Expression)),
    }
}

/// What follows the first factor of a term: `*` or `/` and a factor, any
/// number of times. `left` is the term read so far.
pub open spec fn term_rest(ts: Seq<TokenModel>, pos: int, left: ExprModel) -> Parsed<ExprModel>
    decreases remaining(ts, pos), 1int,
{
    match token_at(ts, pos) {
        Some(TokenModel::Operator(op)) => {
            if is_term_operator(op) {
                match factor(ts, pos + 1) {
                    Ok((right, next)) => {
                        if next > pos {
                            term_rest(ts, next, binary(left, op, right))
                        } else {
                            arbitrary()
                        }
                    },
                    Err(e) => Err(e),
                }
            } else {
                Ok((left, pos))
            }
        },
        _ => Ok((left, pos)),
    }
}

pub open spec fn term(ts: Seq<TokenModel>, pos: int) -> Parsed<ExprModel>
    decreases remaining(ts, pos), 2int,
{
    match factor(ts, pos) {
        Ok((left, next)) => {
            if next > pos {
                term_rest(ts, next, left)
            } else {
                arbitrary()
            }
        },
        Err(e) => Err(e),
    }
}

/// What follows the first term of an addition.
pub open spec fn addition_rest(ts: Seq<TokenModel>, pos: int, left: ExprModel) -> Parsed<
    ExprModel,
>
    decreases remaining(ts, pos), 3int,
{
    match token_at(ts, pos) {
        Some(TokenModel::Operator(op)) => {
            if is_addition_operator(op) {
                match term(ts, pos + 1) {
                    Ok((right, next)) => {
                        if next > pos {
                            addition_rest(ts, next, binary(left, op, right))
                        } else {
                            arbitrary()
                        }
                    },
                    Err(e) => Err(e),
                }
            } else {
                Ok((left, pos))
            }
        },
        _ => Ok((left, pos)),
    }
}

pub open spec fn addition(ts: Seq<TokenModel>, pos: int) -> Parsed<ExprModel>
    decreases remaining(ts, pos), 4int,
{
    match term(ts, pos) {
        Ok((left, next)) => {
            if next > pos {
                addition_rest(ts, next, left)
            } else {
                arbitrary()
            }
        },
        Err(e) => Err(e),
    }
}

/// What follows the first addition of an expression.
pub open spec fn comparison_rest(ts: Seq<TokenModel>, pos: int, left: ExprModel) -> Parsed<
    ExprModel,
>
    decreases remaining(ts, pos), 5int,
{
    match token_at(ts, pos) {
        Some(TokenModel::Operator(op)) => {
            if is_comparison_operator(op) {
                match addition(ts, pos + 1) {
                    Ok((right, next)) => {
                        if next > pos {
                            comparison_rest(ts, next, binary(left, op, right))
                        } else {
                            arbitrary()
                        }
                    },
                    Err(e) => Err(e),
                }
            } else {
                Ok((left, pos))
            }
        },
        _ => Ok((left, pos)),
    }
}

/// An expression.
pub open spec fn expression(ts: Seq<TokenModel>, pos: int) -> Parsed<ExprModel>
    decreases remaining(ts, pos), 6int,
{
    match addition(ts, pos) {
        Ok((left, next)) => {
            if next > pos {
                comparison_rest(ts, next, left)
            } else {
                arbitrary()
            }
        },
        Err(e) => Err(e),
    }
}

/// One argument of a call and those after it, up to but not including the
/// closing parenthesis. `read` holds the arguments before this one.
pub open spec fn arguments_rest(ts: Seq<TokenModel>, pos: int, read: Seq<ExprModel>) -> Parsed<
    Seq<ExprModel>,
>
    decreases remaining(ts, pos), 7int,
{
    match expression(ts, pos) {
        Ok((argument, next)) => {
            if is_punctuation(ts, next, ")"@) {
                Ok((read.push(argument), next))
            } else if is_punctuation(ts, next, ","@) {
                if next >= pos {
                    arguments_rest(ts, next + 1, read.push(argument))
                } else {
                    arbitrary()
                }
            } else {
                Err(failure(ts, next, Expected::ArgumentEnd))
            }
        },
        Err(e) => Err(e),
    }
}

/// The arguments of a call, from after the opening parenthesis up to but
/// not including the closing one.
pub open spec fn arguments(ts: Seq<TokenModel>, pos: int) -> Parsed<Seq<ExprModel>>
    decreases remaining(ts, pos), 8int,
{
    if is_punctuation(ts, pos, ")"@) {
        Ok((Seq::empty(), pos))
    } else {
        arguments_rest(ts, pos, Seq::empty())
    }
}

/// An expression and the semicolon after it.
pub open spec fn terminated(ts: Seq<TokenModel>, pos: int) -> Parsed<ExprModel> {
    match expression(ts, pos) {
        Ok((value, next)) => match expect(ts, next, Expected::Semicolon) {
            Ok(end) => Ok((value, end)),
            Err(e) => Err(e),
        },
        Err(e) => Err(e),
    }
}

/// A declaration, from after `let`.
#[verifier::opaque]
pub open spec fn declaration(ts: Seq<TokenModel>, pos: int) -> Parsed<StmtModel> {
    match name_at(ts, pos) {
        Err(e) => Err(e),
        Ok(name) => {
            if is_operator(ts, pos + 1, "="@) {
                match terminated(ts, pos + 2) {
                    Ok((value, end)) => Ok(
                        (StmtModel::Declaration { name, value, declared: None }, end),
                    ),
                    Err(e) => Err(e),
                }
            } else if is_punctuation(ts, pos + 1, ":"@) {
                match type_at(ts, pos + 2) {
                    Err(e) => Err(e),
                    Ok(declared) => match expect(ts, pos + 3, Expected::Assign) {
                        Err(e) => Err(e),
                        Ok(after) => match terminated(ts, after) {
                            Ok((value, end)) => Ok(
                                (
                                    StmtModel::Declaration {
                                        name,
                                        value,
                                        declared: Some(declared),
                                    },
                                    end,
                                ),
                            ),
                            Err(e) => Err(e),
                        },
                    },
                }
            } else {
                Err(failure(ts, pos + 1, Expected::Declarator))
            }
        },
    }
}

/// A call used as a statement or an assignment, from after the name.
#[verifier::opaque]
pub open spec fn call_or_assignment(ts: Seq<TokenModel>, pos: int, name: Seq<char>) -> Parsed<
    StmtModel,
> {
    if is_punctuation(ts, pos, "("@) {
        match arguments(ts, pos + 1) {
            Err(e) => Err(e),
            Ok((args, next)) => match expect(ts, next, Expected::CloseParen) {
                Err(e) => Err(e),
                Ok(after) => match expect(ts, after, Expected::Semicolon) {
                    Err(e) => Err(e),
                    Ok(end) => Ok(
                        (StmtModel::Expression(ExprModel::Call { name, arguments: args }), end),
                    ),
                },
            },
        }
    } else {
        match expect(ts, pos, Expected::Assign) {
            Err(e) => Err(e),
            Ok(after) => match terminated(ts, after) {
                Ok((value, end)) => Ok((StmtModel::Assignment { name, value }, end)),
                Err(e) => Err(e),
            },
        }
    }
}

/// The parameters of a function, from after the opening parenthesis: any
/// number of `name : type`, with commas between them. `read` holds the
/// parameters before `pos`.
pub open spec fn parameters(ts: Seq<TokenModel>, pos: int, read: Seq<(Seq<char>, Type)>) -> Parsed<
    Seq<(Seq<char>, Type)>,
>
    decreases remaining(ts, pos),
{
    match token_at(ts, pos) {
        Some(TokenModel::Identifier(name)) => match expect(ts, pos + 1, Expected::Colon) {
            Err(e) => Err(e),
            Ok(_) => match type_at(ts, pos + 2) {
                Err(e) => Err(e),
                Ok(param_type) => {
                    if is_punctuation(ts, pos + 3, ","@) {
                        parameters(ts, pos + 4, read.push((name, param_type)))
                    } else {
                        Ok((read.push((name, param_type)), pos + 3))
                    }
                },
            },
        },
        _ => Ok((read, pos)),
    }
}

/// The result type of a function, from after the closing parenthesis of
/// its parameters: `: type`, or nothing before the body, which means `Void`.
pub open spec fn return_type(ts: Seq<TokenModel>, pos: int) -> Parsed<Type> {
    if is_punctuation(ts, pos, ":"@) {
        match type_at(ts, pos + 1) {
            Ok(result) => Ok((result, pos + 2)),
            Err(e) => Err(e),
        }
    } else if is_punctuation(ts, pos, "{"@) {
        Ok((Type::Void, pos))
    } else {
        Err(failure(ts, pos, Expected::ReturnType))
    }
}

/// The head of a function declaration, from after `func` to before the body:
/// name, parameters and result type.
#[verifier::opaque]
pub open spec fn function_head(ts: Seq<TokenModel>, pos: int) -> Parsed<
    (Seq<char>, Seq<(Seq<char>, Type)>, Type),
> {
    match name_at(ts, pos) {
        Err(e) => Err(e),
        Ok(name) => match expect(ts, pos + 1, Expected::OpenParen) {
            Err(e) => Err(e),
            Ok(_) => match parameters(ts, pos + 2, Seq::empty()) {
                Err(e) => Err(e),
                Ok((params, next)) => match expect(ts, next, Expected::CloseParen) {
                    Err(e) => Err(e),
                    Ok(after) => match return_type(ts, after) {
                        Err(e) => Err(e),
                        Ok((result, end)) => Ok(((name, params, result), end)),
                    },
                },
            },
        },
    }
}

/// A statement that was read, as what `statement` returns.
pub open spec fn some(read: Parsed<StmtModel>) -> Parsed<Option<StmtModel>> {
    match read {
        Ok((s, end)) => Ok((Some(s), end)),
        Err(e) => Err(e),
    }
}

/// A loop, from its keyword at `pos`.
pub open spec fn while_statement(ts: Seq<TokenModel>, pos: int) -> Parsed<StmtModel>
    decreases remaining(ts, pos), 5int,
{
    match expression(ts, pos + 1) {
        Err(e) => Err(e),
        Ok((condition, next)) => {
            if pos < next && pos < ts.len() {
                match braced(ts, next) {
                    Ok((body, end)) => Ok((StmtModel::While { condition, body }, end)),
                    Err(e) => Err(e),
                }
            } else {
                arbitrary()
            }
        },
    }
}

/// A conditional, from its keyword at `pos`.
pub open spec fn if_statement(ts: Seq<TokenModel>, pos: int) -> Parsed<StmtModel>
    decreases remaining(ts, pos), 6int,
{
    match expression(ts, pos + 1) {
        Err(e) => Err(e),
        Ok((condition, next)) => {
            if pos < next && pos < ts.len() {
                match braced(ts, next) {
                    Err(e) => Err(e),
                    Ok((then_block, after)) => {
                        if !is_keyword(ts, after, "else"@) {
                            Ok((StmtModel::If { condition, then_block, else_block: None }, after))
                        } else if pos < after {
                            match braced(ts, after + 1) {
                                Ok((else_block, end)) => Ok(
                                    (
                                        StmtModel::If {
                                            condition,
                                            then_block,
                                            else_block: Some(else_block),
                                        },
                                        end,
                                    ),
                                ),
                                Err(e) => Err(e),
                            }
                        } else {
                            arbitrary()
                        }
                    },
                }
            } else {
                arbitrary()
            }
        },
    }
}

/// A function declaration, from its keyword at `pos`.
pub open spec fn function_declaration(ts: Seq<TokenModel>, pos: int) -> Parsed<StmtModel>
    decreases remaining(ts, pos), 7int,
{
    match function_head(ts, pos + 1) {
        Err(e) => Err(e),
        Ok(((name, params, result), next)) => {
            if pos < next && pos < ts.len() {
                match braced(ts, next) {
                    Ok((body, end)) => Ok(
                        (
                            StmtModel::FunctionDeclaration {
                                name,
                                params,
                                return_type: result,
                                body,
                            },
                            end,
                        ),
                    ),
                    Err(e) => Err(e),
                }
            } else {
                arbitrary()
            }
        },
    }
}

/// What the first token of a statement says of it. `S` is the type of the
/// name that starts an assignment or a call.
pub enum Start<S> {
    /// The end marker: there is no statement.
    End,
    /// A name: an assignment, or a call used as a statement.
    Name(S),
    /// `{`.
    Block,
    /// `let`.
    Declaration,
    /// `croak`.
    Print,
    /// `return`.
    Return,
    /// `while`.
    While,
    /// `if`.
    If,
    /// `func`.
    Function,
    /// A token that starts no statement, or no token at all.
    Nothing,
}

/// How the statement that starts with `token` goes on.
pub open spec fn start_of(token: Option<TokenModel>) -> Start<Seq<char>> {
    match token {
        Some(TokenModel::EOF) => Start::End,
        Some(TokenModel::Identifier(name)) => Start::Name(name),
        Some(TokenModel::Punctuation(p)) => {
            if p == "{"@ {
                Start::Block
            } else {
                Start::Nothing
            }
        },
        Some(TokenModel::Keyword(k)) => {
            if k == "let"@ {
                Start::Declaration
            } else if k == "croak"@ {
                Start::Print
            } else if k == "return"@ {
                Start::Return
            } else if k == "while"@ {
                Start::While
            } else if k == "if"@ {
                Start::If
            } else if k == "func"@ {
                Start::Function
            } else {
                Start::Nothing
            }
        },
        _ => Start::Nothing,
    }
}

/// One statement, or none at the end marker, which is not stepped over.
pub open spec fn statement(ts: Seq<TokenModel>, pos: int) -> Parsed<Option<StmtModel>>
    decreases remaining(ts, pos), 9int,
{
    match start_of(token_at(ts, pos)) {
        Start::End => Ok((None, pos)),
        Start::Name(name) => some(call_or_assignment(ts, pos + 1, name)),
        Start::Block => match braced(ts, pos) {
            Ok((body, end)) => Ok((Some(StmtModel::Block(body)), end)),
            Err(e) => Err(e),
        },
        Start::Declaration => some(declaration(ts, pos + 1)),
        Start::Print => match terminated(ts, pos + 1) {
            Ok((value, end)) => Ok((Some(StmtModel::Print(value)), end)),
            Err(e) => Err(e),
        },
        Start::Return => match terminated(ts, pos + 1) {
            Ok((value, end)) => Ok((Some(StmtModel::Return(value)), end)),
            Err(e) => Err(e),
        },
        Start::While => some(while_statement(ts, pos)),
        Start::If => some(if_statement(ts, pos)),
        Start::Function => some(function_declaration(ts, pos)),
        Start::Nothing => Err(failure(ts, pos, Expected::Statement)),
    }
}

/// The statements of a block, up to but not including its closing brace.
/// `read` holds the statements before `pos`. The end of the tokens, marked
/// or not, ends the block too: the caller then misses the brace.
pub open spec fn block(ts: Seq<TokenModel>, pos: int, read: Seq<StmtModel>) -> Parsed<
    Seq<StmtModel>,
>
    decreases remaining(ts, pos), 10int,
{
    if token_at(ts, pos) is None || is_punctuation(ts, pos, "}"@) || token_at(ts, pos) == Some(
        TokenModel::EOF,
    ) {
        Ok((read, pos))
    } else {
        match statement(ts, pos) {
            Err(e) => Err(e),
            Ok((None, _)) => Ok((read, pos)),
            Ok((Some(s), next)) => {
                if next > pos {
                    block(ts, next, read.push(s))
                } else {
                    arbitrary()
                }
            },
        }
    }
}

/// A block in braces. Called at `pos`, it reads only tokens from `pos` on,
/// and at least the opening brace.
pub open spec fn braced(ts: Seq<TokenModel>, pos: int) -> Parsed<Seq<StmtModel>>
    decreases remaining(ts, pos + 1), 11int,
{
    match expect(ts, pos, Expected::OpenBrace) {
        Err(e) => Err(e),
        Ok(_) => match block(ts, pos + 1, Seq::empty()) {
            Err(e) => Err(e),
            Ok((body, next)) => match expect(ts, next, Expected::CloseBrace) {
                Ok(end) => Ok((body, end)),
                Err(e) => Err(e),
            },
        },
    }
}

/// The statements of a program, up to the end marker. `read` holds the
/// statements before `pos`.
pub open spec fn program(ts: Seq<TokenModel>, pos: int, read: Seq<StmtModel>) -> Parsed<
    Seq<StmtModel>,
>
    decreases remaining(ts, pos),
{
    match statement(ts, pos) {
        Err(e) => Err(e),
        Ok((None, end)) => Ok((read, end)),
        Ok((Some(s), next)) => {
            if next > pos {
                program(ts, next, read.push(s))
            } else {
                arbitrary()
            }
        },
    }
}

} // verus!
