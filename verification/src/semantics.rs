//! What running a program means: a function from the state of the
//! interpreter and a piece of program to the state afterwards and an outcome.
//!
//! A function call may nest `depth` deep and a loop may run for
//! `iterations` rounds; beyond that the program faults. These two limits make
//! every run finite.
//!
//! When a statement faults, the scopes that it had entered are left again, so
//! that the scope stack is as deep after a fault as it was before; what the
//! program had assigned, declared and printed until then stays.

use vstd::prelude::*;
use crate::interpreter::{RuntimeFault, Value};
use crate::parser::Type;
use crate::syntax::{ExprModel, StmtModel};
use crate::text::decimal_text;

verus! {

/// A runtime fault with names as character sequences.
pub type Fault = RuntimeFault<Seq<char>>;

/// A scope: the variables declared in it, with their values.
pub type ScopeModel = Map<Seq<char>, Value>;

/// A function as the interpreter stores it.
pub struct FunctionModel {
    pub params: Seq<(Seq<char>, Type)>,
    pub body: Seq<StmtModel>,
}

/// The state of the interpreter: the visible scopes, innermost last, the
/// functions declared so far, and the lines printed so far.
pub struct Machine {
    pub scopes: Seq<ScopeModel>,
    pub functions: Map<Seq<char>, FunctionModel>,
    pub output: Seq<Seq<char>>,
}

/// How deep calls may nest and how many rounds one loop may run.
pub struct Limits {
    pub depth: nat,
    pub iterations: nat,
}

/// How a statement ends: execution goes on with the next one, or the
/// function that is running returns a value.
#[derive(Debug, PartialEq, Eq, Clone, Copy, Structural)]
pub enum Flow {
    Next,
    Return(Value),
}

/// The value of `name` in the innermost scope that holds it.
pub open spec fn lookup(scopes: Seq<ScopeModel>, name: Seq<char>) -> Option<Value>
    decreases scopes.len(),
{
    if scopes.len() == 0 {
        None
    } else if scopes.last().contains_key(name) {
        Some(scopes.last()[name])
    } else {
        lookup(scopes.drop_last(), name)
    }
}

/// The scopes after `name` got the value `value` in the innermost scope that
/// holds it; none if no scope holds it.
pub open spec fn assign(scopes: Seq<ScopeModel>, name: Seq<char>, value: Value) -> Option<
    Seq<ScopeModel>,
>
    decreases scopes.len(),
{
    if scopes.len() == 0 {
        None
    } else if scopes.last().contains_key(name) {
        Some(scopes.drop_last().push(scopes.last().insert(name, value)))
    } else {
        match assign(scopes.drop_last(), name, value) {
            Some(outer) => Some(outer.push(scopes.last())),
            None => None,
        }
    }
}

/// The scopes after `name` was bound to `value` in the innermost scope.
pub open spec fn declare(scopes: Seq<ScopeModel>, name: Seq<char>, value: Value) -> Seq<
    ScopeModel,
> {
    if scopes.len() == 0 {
        scopes
    } else {
        scopes.drop_last().push(scopes.last().insert(name, value))
    }
}

impl Machine {
    /// The state in which nothing has run: one empty scope, no function, no
    /// output.
    pub open spec fn fresh() -> Machine {
        Machine { scopes: seq![Map::empty()], functions: Map::empty(), output: Seq::empty() }
    }

    pub open spec fn with_scopes(self, scopes: Seq<ScopeModel>) -> Machine {
        Machine { scopes, functions: self.functions, output: self.output }
    }

    pub open spec fn enter(self) -> Machine {
        self.with_scopes(self.scopes.push(Map::empty()))
    }

    pub open spec fn leave(self) -> Machine {
        self.with_scopes(self.scopes.drop_last())
    }

    pub open spec fn declare(self, name: Seq<char>, value: Value) -> Machine {
        self.with_scopes(declare(self.scopes, name, value))
    }

    pub open spec fn print(self, value: Value) -> Machine {
        Machine {
            scopes: self.scopes,
            functions: self.functions,
            output: self.output.push(render(value)),
        }
    }

    pub open spec fn define(self, name: Seq<char>, function: FunctionModel) -> Machine {
        Machine {
            scopes: self.scopes,
            functions: self.functions.insert(name, function),
            output: self.output,
        }
    }
}

/// The text that printing a value gives.
pub open spec fn render(value: Value) -> Seq<char> {
    match value {
        Value::Number(n) => decimal_text(n as int),
        Value::Bool(true) => "true"@,
        Value::Bool(false) => "false"@,
        Value::Void => "void"@,
    }
}

/// The quotient of two integers, rounded towards zero.
pub open spec fn quotient(a: int, b: int) -> int
    recommends
        b != 0,
{
    if a == 0 {
        0
    } else if a > 0 && b > 0 {
        a / b
    } else if a < 0 && b < 0 {
        (-a) / (-b)
    } else if a < 0 {
        -((-a) / b)
    } else {
        -(a / (-b))
    }
}

/// The number `n` as a value, if it fits in 32 bits.
pub open spec fn number(n: int) -> Result<Value, Fault> {
    if i32::MIN <= n <= i32::MAX {
        Ok(Value::Number(n as i32))
    } else {
        Err(RuntimeFault::Overflow)
    }
}

/// What a binary operator gives on two values.
pub open spec fn apply(operator: Seq<char>, left: Value, right: Value) -> Result<Value, Fault> {
    match (left, right) {
        (Value::Number(a), Value::Number(b)) => {
            if operator == "+"@ {
                number(a + b)
            } else if operator == "-"@ {
                number(a - b)
            } else if operator == "*"@ {
                number(a * b)
            } else if operator == "/"@ {
                if b == 0 {
                    Err(RuntimeFault::DivisionByZero)
                } else {
                    number(quotient(a as int, b as int))
                }
            } else if operator == ">"@ {
                Ok(Value::Bool(a > b))
            } else if operator == "<"@ {
                Ok(Value::Bool(a < b))
            } else if operator == "=="@ {
                Ok(Value::Bool(a == b))
            } else {
                Err(RuntimeFault::UnsupportedOperation(operator))
            }
        },
        (Value::Bool(a), Value::Bool(b)) => {
            if operator == "=="@ {
                Ok(Value::Bool(a == b))
            } else {
                Err(RuntimeFault::UnsupportedOperation(operator))
            }
        },
        (Value::Void, Value::Void) => {
            if operator == "=="@ {
                Ok(Value::Bool(true))
            } else {
                Err(RuntimeFault::UnsupportedOperation(operator))
            }
        },
        _ => Err(RuntimeFault::UnsupportedOperation(operator)),
    }
}

/// The value of an expression. Arguments of a call are evaluated in a new
/// scope on top of the caller's scopes, each bound to its parameter before
/// the next is evaluated; the body then sees that scope and nothing else.
pub open spec fn eval(m: Machine, e: ExprModel, depth: nat, limits: Limits) -> (Machine, Result<
    Value,
    Fault,
>)
    decreases depth, 0nat, e, 0nat,
{
    match e {
        ExprModel::Number(n) => (m, Ok(Value::Number(n))),
        ExprModel::Bool(b) => (m, Ok(Value::Bool(b))),
        ExprModel::Variable(name) => match lookup(m.scopes, name) {
            Some(value) => (m, Ok(value)),
            None => (m, Err(RuntimeFault::UndefinedVariable(name))),
        },
        ExprModel::Binary { left, operator, right } => {
            let (m1, l) = eval(m, *left, depth, limits);
            match l {
                Err(fault) => (m1, Err(fault)),
                Ok(a) => {
                    let (m2, r) = eval(m1, *right, depth, limits);
                    match r {
                        Err(fault) => (m2, Err(fault)),
                        Ok(b) => (m2, apply(operator, a, b)),
                    }
                },
            }
        },
        ExprModel::Call { name, arguments } => {
            if !m.functions.contains_key(name) {
                (m, Err(RuntimeFault::UndefinedFunction(name)))
            } else {
                let function = m.functions[name];
                if arguments.len() != function.params.len() {
                    (m, Err(RuntimeFault::WrongArgumentCount(name)))
                } else if depth == 0 {
                    (m, Err(RuntimeFault::CallDepthExceeded))
                } else {
                    let (m1, bound) = bind(m.enter(), function.params, arguments, depth, limits);
                    match bound {
                        Err(fault) => (m1.leave(), Err(fault)),
                        Ok(()) => {
                            let (m2, flow) = exec_block(
                                m1.with_scopes(seq![m1.scopes.last()]),
                                function.body,
                                (depth - 1) as nat,
                                limits,
                            );
                            let after = m2.with_scopes(m1.scopes.drop_last());
                            match flow {
                                Err(fault) => (after, Err(fault)),
                                Ok(Flow::Return(value)) => (after, Ok(value)),
                                Ok(Flow::Next) => (after, Ok(Value::Void)),
                            }
                        },
                    }
                }
            }
        },
    }
}

/// Evaluates the arguments of a call in turn and binds each to its
/// parameter in the innermost scope.
pub open spec fn bind(
    m: Machine,
    params: Seq<(Seq<char>, Type)>,
    arguments: Seq<ExprModel>,
    depth: nat,
    limits: Limits,
) -> (Machine, Result<(), Fault>)
    decreases depth, 0nat, arguments, 0nat,
{
    if arguments.len() == 0 || params.len() == 0 {
        (m, Ok(()))
    } else {
        let (m1, value) = eval(m, arguments[0], depth, limits);
        match value {
            Err(fault) => (m1, Err(fault)),
            Ok(v) => bind(
                m1.declare(params[0].0, v),
                params.drop_first(),
                arguments.drop_first(),
                depth,
                limits,
            ),
        }
    }
}

/// The truth value of a condition.
pub open spec fn condition(m: Machine, e: ExprModel, depth: nat, limits: Limits) -> (
    Machine,
    Result<bool, Fault>,
)
    decreases depth, 0nat, e, 1nat,
{
    let (m1, value) = eval(m, e, depth, limits);
    match value {
        Err(fault) => (m1, Err(fault)),
        Ok(Value::Bool(b)) => (m1, Ok(b)),
        Ok(_) => (m1, Err(RuntimeFault::ConditionNotBoolean)),
    }
}

/// Runs statements in order, up to the first that returns or faults.
pub open spec fn exec_block(m: Machine, statements: Seq<StmtModel>, depth: nat, limits: Limits) -> (
    Machine,
    Result<Flow, Fault>,
)
    decreases depth, 1nat, statements, 0nat,
{
    if statements.len() == 0 {
        (m, Ok(Flow::Next))
    } else {
        let (m1, flow) = exec(m, statements[0], depth, limits);
        match flow {
            Ok(Flow::Next) => exec_block(m1, statements.drop_first(), depth, limits),
            _ => (m1, flow),
        }
    }
}

/// Runs the loop `s` for at most `rounds` more rounds, in the scope that
/// was entered for it.
pub open spec fn exec_while(m: Machine, s: StmtModel, depth: nat, limits: Limits, rounds: nat) -> (
    Machine,
    Result<Flow, Fault>,
)
    decreases depth, 1nat, s, rounds,
{
    match s {
        StmtModel::While { condition: test, body } => {
            let (m1, go) = condition(m, test, depth, limits);
            match go {
                Err(fault) => (m1, Err(fault)),
                Ok(false) => (m1, Ok(Flow::Next)),
                Ok(true) => {
                    if rounds == 0 {
                        (m1, Err(RuntimeFault::IterationLimitExceeded))
                    } else {
                        let (m2, flow) = exec_block(m1, body, depth, limits);
                        match flow {
                            Ok(Flow::Next) => exec_while(
                                m2,
                                s,
                                depth,
                                limits,
                                (rounds - 1) as nat,
                            ),
                            _ => (m2, flow),
                        }
                    }
                },
            }
        },
        _ => (m, Ok(Flow::Next)),
    }
}

/// Runs one statement.
pub open spec fn exec(m: Machine, s: StmtModel, depth: nat, limits: Limits) -> (Machine, Result<
    Flow,
    Fault,
>)
    decreases depth, 1nat, s, limits.iterations + 1,
{
    match s {
        StmtModel::Return(e) => {
            let (m1, value) = eval(m, e, depth, limits);
            match value {
                Err(fault) => (m1, Err(fault)),
                Ok(v) => (m1, Ok(Flow::Return(v))),
            }
        },
        StmtModel::Assignment { name, value } => {
            let (m1, result) = eval(m, value, depth, limits);
            match result {
                Err(fault) => (m1, Err(fault)),
                Ok(v) => match assign(m1.scopes, name, v) {
                    Some(scopes) => (m1.with_scopes(scopes), Ok(Flow::Next)),
                    None => (m1, Err(RuntimeFault::UndefinedVariable(name))),
                },
            }
        },
        StmtModel::Declaration { name, value, declared } => {
            let (m1, result) = eval(m, value, depth, limits);
            match result {
                Err(fault) => (m1, Err(fault)),
                Ok(v) => (m1.declare(name, v), Ok(Flow::Next)),
            }
        },
        StmtModel::Print(e) => {
            let (m1, value) = eval(m, e, depth, limits);
            match value {
                Err(fault) => (m1, Err(fault)),
                Ok(v) => (m1.print(v), Ok(Flow::Next)),
            }
        },
        StmtModel::Expression(e) => {
            let (m1, value) = eval(m, e, depth, limits);
            match value {
                Err(fault) => (m1, Err(fault)),
                Ok(_) => (m1, Ok(Flow::Next)),
            }
        },
        StmtModel::While { condition: test, body } => {
            let (m1, flow) = exec_while(m.enter(), s, depth, limits, limits.iterations);
            (m1.leave(), flow)
        },
        StmtModel::Block(body) => {
            let (m1, flow) = exec_block(m.enter(), body, depth, limits);
            (m1.leave(), flow)
        },
        StmtModel::FunctionDeclaration { name, params, return_type, body } => (
            m.define(name, FunctionModel { params, body }),
            Ok(Flow::Next),
        ),
        StmtModel::If { condition: test, then_block, else_block } => {
            let (m1, go) = condition(m, test, depth, limits);
            match go {
                Err(fault) => (m1, Err(fault)),
                Ok(true) => exec_block(m1, then_block, depth, limits),
                Ok(false) => match else_block {
                    Some(block) => exec_block(m1, block, depth, limits),
                    None => (m1, Ok(Flow::Next)),
                },
            }
        },
    }
}

/// Runs a program: its statements in order, up to the first that faults. A
/// `return` outside of any function ends the statement that holds it and
/// nothing more.
pub open spec fn run(m: Machine, program: Seq<StmtModel>, limits: Limits) -> (Machine, Result<
    (),
    Fault,
>)
    decreases program.len(),
{
    if program.len() == 0 {
        (m, Ok(()))
    } else {
        let (m1, flow) = exec(m, program[0], limits.depth, limits);
        match flow {
            Err(fault) => (m1, Err(fault)),
            Ok(_) => run(m1, program.drop_first(), limits),
        }
    }
}

} // verus!
