//! The typing rules: what type an expression has and when a statement is
//! well typed, over a stack of frames that hold the types of the variables
//! and the signatures of the functions in scope.
//!
//! The arguments of a call are not looked at, and the value of a `return` is
//! not held against the result type of the function around it.
//!
//! When a statement is rejected, the frames that were entered for it are left
//! again; what was declared before the offending statement stays.

use vstd::prelude::*;
use crate::parser::Type;
use crate::syntax::{ExprModel, StmtModel};
use crate::typechecker::TypeFault;

verus! {

/// A type error with names as character sequences.
pub type TypeFaultModel = TypeFault<Seq<char>>;

/// The parameter types and the result type of a function.
pub struct SignatureModel {
    pub params: Seq<Type>,
    pub result: Type,
}

/// One scope: the variables and the functions declared in it.
pub struct Frame {
    pub variables: Map<Seq<char>, Type>,
    pub functions: Map<Seq<char>, SignatureModel>,
}

/// The scopes that are open, innermost last.
pub type Context = Seq<Frame>;

pub open spec fn empty_frame() -> Frame {
    Frame { variables: Map::empty(), functions: Map::empty() }
}

/// The context in which nothing is declared.
pub open spec fn fresh() -> Context {
    seq![empty_frame()]
}

pub open spec fn enter(ctx: Context) -> Context {
    ctx.push(empty_frame())
}

pub open spec fn leave(ctx: Context) -> Context {
    ctx.drop_last()
}

/// The type of `name` in the innermost frame that declares it.
pub open spec fn variable_type(ctx: Context, name: Seq<char>) -> Option<Type>
    decreases ctx.len(),
{
    if ctx.len() == 0 {
        None
    } else if ctx.last().variables.contains_key(name) {
        Some(ctx.last().variables[name])
    } else {
        variable_type(ctx.drop_last(), name)
    }
}

/// The signature of `name` in the innermost frame that declares it.
pub open spec fn function_signature(ctx: Context, name: Seq<char>) -> Option<SignatureModel>
    decreases ctx.len(),
{
    if ctx.len() == 0 {
        None
    } else if ctx.last().functions.contains_key(name) {
        Some(ctx.last().functions[name])
    } else {
        function_signature(ctx.drop_last(), name)
    }
}

/// The context after `name` was declared with type `t` in the innermost
/// frame.
pub open spec fn declare_variable(ctx: Context, name: Seq<char>, t: Type) -> Context {
    if ctx.len() == 0 {
        ctx
    } else {
        ctx.drop_last().push(
            Frame {
                variables: ctx.last().variables.insert(name, t),
                functions: ctx.last().functions,
            },
        )
    }
}

/// The context after the function `name` was declared in the innermost
/// frame.
pub open spec fn declare_function(ctx: Context, name: Seq<char>, signature: SignatureModel) -> Context {
    if ctx.len() == 0 {
        ctx
    } else {
        ctx.drop_last().push(
            Frame {
                variables: ctx.last().variables,
                functions: ctx.last().functions.insert(name, signature),
            },
        )
    }
}

/// The context after the parameters of a function were declared in turn.
pub open spec fn declare_parameters(ctx: Context, params: Seq<(Seq<char>, Type)>) -> Context
    decreases params.len(),
{
    if params.len() == 0 {
        ctx
    } else {
        declare_parameters(declare_variable(ctx, params[0].0, params[0].1), params.drop_first())
    }
}

/// The types of a parameter list.
pub open spec fn parameter_types(params: Seq<(Seq<char>, Type)>) -> Seq<Type> {
    params.map_values(|p: (Seq<char>, Type)| p.1)
}

pub open spec fn is_arithmetic(operator: Seq<char>) -> bool {
    operator == "+"@ || operator == "-"@ || operator == "*"@ || operator == "/"@
}

pub open spec fn is_ordering(operator: Seq<char>) -> bool {
    operator == ">"@ || operator == "<"@
}

/// The type that a binary operator gives on operands of the given types.
pub open spec fn operation_type(operator: Seq<char>, left: Type, right: Type) -> Result<
    Type,
    TypeFaultModel,
> {
    if is_arithmetic(operator) {
        if left == Type::Number && right == Type::Number {
            Ok(Type::Number)
        } else {
            Err(TypeFault::OperandMismatch { operator, left, right })
        }
    } else if is_ordering(operator) {
        if left == Type::Number && right == Type::Number {
            Ok(Type::Boolean)
        } else {
            Err(TypeFault::OperandMismatch { operator, left, right })
        }
    } else if operator == "=="@ {
        if left == right {
            Ok(Type::Boolean)
        } else {
            Err(TypeFault::OperandMismatch { operator, left, right })
        }
    } else {
        Err(TypeFault::UnknownOperator(operator))
    }
}

/// The type of an expression.
pub open spec fn infer(ctx: Context, e: ExprModel) -> Result<Type, TypeFaultModel>
    decreases e,
{
    match e {
        ExprModel::Number(_) => Ok(Type::Number),
        ExprModel::Bool(_) => Ok(Type::Boolean),
        ExprModel::Variable(name) => match variable_type(ctx, name) {
            Some(t) => Ok(t),
            None => Err(TypeFault::UndefinedVariable(name)),
        },
        ExprModel::Binary { left, operator, right } => match infer(ctx, *left) {
            Err(fault) => Err(fault),
            Ok(l) => match infer(ctx, *right) {
                Err(fault) => Err(fault),
                Ok(r) => operation_type(operator, l, r),
            },
        },
        ExprModel::Call { name, arguments } => match function_signature(ctx, name) {
            Some(signature) => Ok(signature.result),
            None => Err(TypeFault::UndefinedFunction(name)),
        },
    }
}

/// Checks that a condition is a boolean.
pub open spec fn check_condition(ctx: Context, e: ExprModel) -> Result<(), TypeFaultModel> {
    match infer(ctx, e) {
        Err(fault) => Err(fault),
        Ok(Type::Boolean) => Ok(()),
        Ok(t) => Err(TypeFault::ConditionNotBoolean(t)),
    }
}

/// Checks an expression whose type does not matter.
pub open spec fn check_expression(ctx: Context, e: ExprModel) -> Result<(), TypeFaultModel> {
    match infer(ctx, e) {
        Err(fault) => Err(fault),
        Ok(_) => Ok(()),
    }
}

/// Checks statements in order, up to the first that is rejected.
pub open spec fn check_block(ctx: Context, statements: Seq<StmtModel>) -> (Context, Result<
    (),
    TypeFaultModel,
>)
    decreases statements, 0nat,
{
    if statements.len() == 0 {
        (ctx, Ok(()))
    } else {
        let (c1, r) = check_statement(ctx, statements[0]);
        match r {
            Err(fault) => (c1, Err(fault)),
            Ok(()) => check_block(c1, statements.drop_first()),
        }
    }
}

/// Checks statements in a frame of their own.
pub open spec fn check_scoped(ctx: Context, statements: Seq<StmtModel>) -> (Context, Result<
    (),
    TypeFaultModel,
>)
    decreases statements, 1nat,
{
    let (c1, r) = check_block(enter(ctx), statements);
    (leave(c1), r)
}

/// Checks one statement.
pub open spec fn check_statement(ctx: Context, s: StmtModel) -> (Context, Result<
    (),
    TypeFaultModel,
>)
    decreases s, 0nat,
{
    match s {
        StmtModel::Declaration { name, value, declared } => match infer(ctx, value) {
            Err(fault) => (ctx, Err(fault)),
            Ok(found) => {
                if declared is Some && declared->0 != found {
                    (
                        ctx,
                        Err(
                            TypeFault::DeclarationMismatch {
                                name,
                                declared: declared->0,
                                found,
                            },
                        ),
                    )
                } else {
                    (declare_variable(ctx, name, found), Ok(()))
                }
            },
        },
        StmtModel::Assignment { name, value } => match variable_type(ctx, name) {
            None => (ctx, Err(TypeFault::UndefinedVariable(name))),
            Some(expected) => match infer(ctx, value) {
                Err(fault) => (ctx, Err(fault)),
                Ok(found) => {
                    if expected != found {
                        (ctx, Err(TypeFault::AssignmentMismatch { name, expected, found }))
                    } else {
                        (ctx, Ok(()))
                    }
                },
            },
        },
        StmtModel::Print(e) => (ctx, check_expression(ctx, e)),
        StmtModel::Expression(e) => (ctx, check_expression(ctx, e)),
        StmtModel::Return(e) => (ctx, check_expression(ctx, e)),
        StmtModel::While { condition, body } => match check_condition(ctx, condition) {
            Err(fault) => (ctx, Err(fault)),
            Ok(()) => check_scoped(ctx, body),
        },
        StmtModel::Block(body) => check_scoped(ctx, body),
        StmtModel::FunctionDeclaration { name, params, return_type, body } => {
            let declared = declare_function(
                ctx,
                name,
                SignatureModel { params: parameter_types(params), result: return_type },
            );
            let (c1, r) = check_block(declare_parameters(enter(declared), params), body);
            (leave(c1), r)
        },
        StmtModel::If { condition, then_block, else_block } => match check_condition(
            ctx,
            condition,
        ) {
            Err(fault) => (ctx, Err(fault)),
            Ok(()) => {
                let (c1, r) = check_scoped(ctx, then_block);
                match r {
                    Err(fault) => (c1, Err(fault)),
                    Ok(()) => match else_block {
                        Some(block) => check_scoped(c1, block),
                        None => (c1, Ok(())),
                    },
                }
            },
        },
    }
}

} // verus!
