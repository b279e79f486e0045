//! Programs as mathematical values: what the contracts of the parser, the
//! type checker and the interpreter speak of.

use vstd::prelude::*;
use crate::parser::Type;

verus! {

/// An expression.
pub enum ExprModel {
    Number(i32),
    Bool(bool),
    Variable(Seq<char>),
    Binary { left: Box<ExprModel>, operator: Seq<char>, right: Box<ExprModel> },
    Call { name: Seq<char>, arguments: Seq<ExprModel> },
}

/// A statement.
pub enum StmtModel {
    Declaration { name: Seq<char>, value: ExprModel, declared: Option<Type> },
    Assignment { name: Seq<char>, value: ExprModel },
    Print(ExprModel),
    While { condition: ExprModel, body: Seq<StmtModel> },
    Block(Seq<StmtModel>),
    FunctionDeclaration {
        name: Seq<char>,
        params: Seq<(Seq<char>, Type)>,
        return_type: Type,
        body: Seq<StmtModel>,
    },
    If { condition: ExprModel, then_block: Seq<StmtModel>, else_block: Option<Seq<StmtModel>> },
    Expression(ExprModel),
    Return(ExprModel),
}

} // verus!
