//! The interpreter: runs a program, statement by statement, on a stack of
//! scopes and a table of functions.

use vstd::prelude::*;
use crate::parser::{
    clone_parameters, clone_statements, expression_models, parameter_models, statement_models,
    Expression, Statement, Type,
};
use crate::semantics::{
    apply, assign, bind, condition, eval, exec, exec_block, exec_while, lookup, number, quotient,
    render, run, Fault, Flow, FunctionModel, Limits, Machine, ScopeModel,
};
use crate::syntax::ExprModel;
use crate::table::Table;
use crate::text::{render_number, same_text};

verus! {

/// A value that a program computes.
#[derive(Debug, PartialEq, Eq, Clone, Copy, Structural)]
pub enum Value {
    Number(i32),
    Bool(bool),
    Void,
}

/// Why a program stopped. `S` is the type of the names in it.
#[derive(Debug, PartialEq, Eq)]
pub enum RuntimeFault<S> {
    /// A variable was read or assigned that no visible scope holds.
    UndefinedVariable(S),
    /// A function was called that has not been declared.
    UndefinedFunction(S),
    /// A function was called with more or fewer arguments than it has
    /// parameters.
    WrongArgumentCount(S),
    /// An operator was applied to values that it does not take, or is not an
    /// operator at all.
    UnsupportedOperation(S),
    /// A number was divided by zero.
    DivisionByZero,
    /// The result of an operation does not fit in 32 bits.
    Overflow,
    /// The condition of a loop or a conditional was not a boolean.
    ConditionNotBoolean,
    /// Calls nested deeper than the interpreter allows.
    CallDepthExceeded,
    /// A loop ran for more rounds than the interpreter allows.
    IterationLimitExceeded,
}

/// Why a program stopped.
pub type RuntimeError = RuntimeFault<String>;

impl View for RuntimeFault<String> {
    type V = Fault;

    open spec fn view(&self) -> Fault {
        match self {
            RuntimeFault::UndefinedVariable(name) => RuntimeFault::UndefinedVariable(name@),
            RuntimeFault::UndefinedFunction(name) => RuntimeFault::UndefinedFunction(name@),
            RuntimeFault::WrongArgumentCount(name) => RuntimeFault::WrongArgumentCount(name@),
            RuntimeFault::UnsupportedOperation(op) => RuntimeFault::UnsupportedOperation(op@),
            RuntimeFault::DivisionByZero => RuntimeFault::DivisionByZero,
            RuntimeFault::Overflow => RuntimeFault::Overflow,
            RuntimeFault::ConditionNotBoolean => RuntimeFault::ConditionNotBoolean,
            RuntimeFault::CallDepthExceeded => RuntimeFault::CallDepthExceeded,
            RuntimeFault::IterationLimitExceeded => RuntimeFault::IterationLimitExceeded,
        }
    }
}

/// What a step of the interpreter returned, with the names of a fault as
/// character sequences.
pub open spec fn outcome<T>(r: Result<T, RuntimeError>) -> Result<T, Fault> {
    match r {
        Ok(value) => Ok(value),
        Err(fault) => Err(fault@),
    }
}

/// A declared function: its parameters and its body.
#[derive(Debug)]
pub struct Function {
    params: Vec<(String, Type)>,
    body: Vec<Statement>,
}

impl View for Function {
    type V = FunctionModel;

    closed spec fn view(&self) -> FunctionModel {
        FunctionModel { params: parameter_models(self.params@), body: statement_models(self.body@) }
    }
}

impl Clone for Function {
    fn clone(&self) -> (copy: Function)
        ensures
            copy@ == self@,
    {
        Function { params: clone_parameters(&self.params), body: clone_statements(&self.body) }
    }
}

/// The models of a stack of scopes.
pub open spec fn scope_models(scopes: Seq<Table<Value>>) -> Seq<ScopeModel> {
    scopes.map_values(|scope: Table<Value>| scope@)
}

/// The text that printing a value gives.
pub fn render_value(value: Value) -> (text: String)
    ensures
        text@ == render(value),
{
    match value {
        Value::Number(n) => render_number(n),
        Value::Bool(true) => String::from_str("true"),
        Value::Bool(false) => String::from_str("false"),
        Value::Void => String::from_str("void"),
    }
}

fn checked(result: Option<i32>, Ghost(exact): Ghost<int>) -> (r: Result<Value, RuntimeError>)
    requires
        result == if i32::MIN <= exact <= i32::MAX {
            Some(exact as i32)
        } else {
            None
        },
    ensures
        outcome(r) == number(exact),
{
    match result {
        Some(n) => Ok(Value::Number(n)),
        None => Err(RuntimeFault::Overflow),
    }
}

/// Applies a binary operator to two values.
pub fn apply_operator(operator: &String, left: Value, right: Value) -> (r: Result<
    Value,
    RuntimeError,
>)
    ensures
        outcome(r) == apply(operator@, left, right),
{
    let op = operator.as_str();
    match (left, right) {
        (Value::Number(a), Value::Number(b)) => {
            if same_text(op, "+") {
                checked(a.checked_add(b), Ghost(a + b))
            } else if same_text(op, "-") {
                checked(a.checked_sub(b), Ghost(a - b))
            } else if same_text(op, "*") {
                checked(a.checked_mul(b), Ghost(a * b))
            } else if same_text(op, "/") {
                if b == 0 {
                    Err(RuntimeFault::DivisionByZero)
                } else {
                    checked(a.checked_div(b), Ghost(quotient(a as int, b as int)))
                }
            } else if same_text(op, ">") {
                Ok(Value::Bool(a > b))
            } else if same_text(op, "<") {
                Ok(Value::Bool(a < b))
            } else if same_text(op, "==") {
                Ok(Value::Bool(a == b))
            } else {
                Err(RuntimeFault::UnsupportedOperation(operator.clone()))
            }
        },
        (Value::Bool(a), Value::Bool(b)) => {
            if same_text(op, "==") {
                Ok(Value::Bool(a == b))
            } else {
                Err(RuntimeFault::UnsupportedOperation(operator.clone()))
            }
        },
        (Value::Void, Value::Void) => {
            if same_text(op, "==") {
                Ok(Value::Bool(true))
            } else {
                Err(RuntimeFault::UnsupportedOperation(operator.clone()))
            }
        },
        _ => Err(RuntimeFault::UnsupportedOperation(operator.clone())),
    }
}

/// A tree-walking interpreter.
pub struct Interpreter {
    /// The visible scopes, innermost last.
    pub environments: Vec<Table<Value>>,
    functions: Table<Function>,
    /// The lines printed so far.
    pub output: Vec<String>,
    depth: usize,
    iterations: u64,
}

impl View for Interpreter {
    type V = Machine;

    closed spec fn view(&self) -> Machine {
        Machine {
            scopes: scope_models(self.environments@),
            functions: self.functions@.map_values(|f: Function| f@),
            output: self.output@.map_values(|line: String| line@),
        }
    }
}

impl Interpreter {
    /// How deep calls may nest and how many rounds a loop may run.
    pub closed spec fn limits(&self) -> Limits {
        Limits { depth: self.depth as nat, iterations: self.iterations as nat }
    }

    /// There is a scope to declare variables in.
    pub open spec fn wf(&self) -> bool {
        self@.scopes.len() >= 1
    }

    /// An interpreter in which nothing has run, with calls nesting up to 200
    /// deep and loops as long as a 64-bit counter allows.
    pub fn new() -> (interpreter: Interpreter)
        ensures
            interpreter.wf(),
            interpreter@ == Machine::fresh(),
            interpreter.limits() == (Limits { depth: 200, iterations: u64::MAX as nat }),
    {
        Interpreter::with_limits(200, u64::MAX)
    }

    /// An interpreter in which nothing has run, with the given limits on
    /// the nesting of calls and on the rounds of one loop.
    pub fn with_limits(depth: usize, iterations: u64) -> (interpreter: Interpreter)
        ensures
            interpreter.wf(),
            interpreter@ == Machine::fresh(),
            interpreter.limits() == (Limits { depth: depth as nat, iterations: iterations as nat }),
    {
        let mut environments: Vec<Table<Value>> = Vec::new();
        environments.push(Table::new());
        let interpreter = Interpreter {
            environments,
            functions: Table::new(),
            output: Vec::new(),
            depth,
            iterations,
        };
        proof {
            assert(interpreter@.scopes =~= Machine::fresh().scopes);
            assert(interpreter@.functions =~= Machine::fresh().functions);
            assert(interpreter@.output =~= Machine::fresh().output);
        }
        interpreter
    }

    fn enter_scope(&mut self)
        ensures
            final(self)@ == old(self)@.enter(),
            final(self).limits() == old(self).limits(),
            final(self).environments.len() == old(self).environments.len() + 1,
    {
        self.environments.push(Table::new());
        assert(self@.scopes =~= old(self)@.enter().scopes);
    }

    fn exit_scope(&mut self)
        requires
            old(self).environments.len() >= 1,
        ensures
            final(self)@ == old(self)@.leave(),
            final(self).limits() == old(self).limits(),
            final(self).environments.len() == old(self).environments.len() - 1,
    {
        self.environments.pop();
        assert(self@.scopes =~= old(self)@.leave().scopes);
    }

    fn declare_variable(&mut self, name: String, value: Value)
        requires
            old(self).environments.len() >= 1,
        ensures
            final(self)@ == old(self)@.declare(name@, value),
            final(self).limits() == old(self).limits(),
            final(self).environments.len() == old(self).environments.len(),
    {
        let last = self.environments.len() - 1;
        self.environments[last].insert(name, value);
        assert(self@.scopes =~= old(self)@.declare(name@, value).scopes);
    }

    fn assign_variable(&mut self, name: String, value: Value) -> (r: Result<(), RuntimeError>)
        ensures
            final(self).limits() == old(self).limits(),
            final(self).environments.len() == old(self).environments.len(),
            match assign(old(self)@.scopes, name@, value) {
                Some(scopes) => r is Ok && final(self)@ == old(self)@.with_scopes(scopes),
                None => outcome(r) == Err::<(), Fault>(RuntimeFault::UndefinedVariable(name@))
                    && final(self)@ == old(self)@,
            },
    {
        let mut i: usize = self.environments.len();
        while i > 0
            invariant
                *self == *old(self),
                i <= self.environments.len(),
                forall|k: int|
                    i <= k < self.environments.len() ==> !(#[trigger] self.environments@[k])@.contains_key(
                        name@,
                    ),
            decreases i,
        {
            i -= 1;
            if self.environments[i].contains(name.as_str()) {
                let ghost key = name@;
                self.environments[i].insert(name, value);
                proof {
                    lemma_assign_at(old(self)@.scopes, key, value, i as int);
                    assert(self@.scopes =~= old(self)@.scopes.update(
                        i as int,
                        old(self)@.scopes[i as int].insert(key, value),
                    ));
                }
                return Ok(());
            }
        }
        proof {
            lemma_assign_nowhere(self@.scopes, name@, value);
        }
        Err(RuntimeFault::UndefinedVariable(name))
    }

    fn resolve_variable(&self, name: &String) -> (r: Result<Value, RuntimeError>)
        ensures
            match lookup(self@.scopes, name@) {
                Some(value) => r == Ok::<Value, RuntimeError>(value),
                None => outcome(r) == Err::<Value, Fault>(RuntimeFault::UndefinedVariable(name@)),
            },
    {
        match self.variable(name.as_str()) {
            Some(value) => Ok(value),
            None => Err(RuntimeFault::UndefinedVariable(name.clone())),
        }
    }

    /// The value of the variable `name` in the innermost scope that holds
    /// it.
    pub fn variable(&self, name: &str) -> (value: Option<Value>)
        ensures
            value == lookup(self@.scopes, name@),
    {
        let mut i: usize = self.environments.len();
        while i > 0
            invariant
                i <= self.environments.len(),
                forall|k: int|
                    i <= k < self.environments.len() ==> !(#[trigger] self.environments@[k])@.contains_key(
                        name@,
                    ),
            decreases i,
        {
            i -= 1;
            match self.environments[i].get(name) {
                Some(value) => {
                    proof {
                        lemma_lookup_at(self@.scopes, name@, i as int);
                    }
                    return Some(*value);
                },
                None => {},
            }
        }
        proof {
            lemma_lookup_nowhere(self@.scopes, name@);
        }
        None
    }

    /// The lines printed so far.
    pub fn printed(&self) -> (lines: &Vec<String>)
        ensures
            lines@.map_values(|line: String| line@) == self@.output,
    {
        &self.output
    }

    /// How many scopes are visible.
    pub fn scope_count(&self) -> (count: usize)
        ensures
            count == self@.scopes.len(),
    {
        self.environments.len()
    }

    fn print(&mut self, value: Value)
        ensures
            final(self)@ == old(self)@.print(value),
            final(self).limits() == old(self).limits(),
            final(self).environments == old(self).environments,
    {
        self.output.push(render_value(value));
        assert(self@.output =~= old(self)@.print(value).output);
    }

    fn define(&mut self, name: String, function: Function)
        ensures
            final(self)@ == old(self)@.define(name@, function@),
            final(self).limits() == old(self).limits(),
            final(self).environments == old(self).environments,
    {
        self.functions.insert(name, function);
        assert(self@.functions =~= old(self)@.define(name@, function@).functions);
    }

    /// The function called `name`, if it is declared.
    fn function(&self, name: &String) -> (found: Option<Function>)
        ensures
            match found {
                Some(function) => self@.functions.contains_key(name@) && function@
                    == self@.functions[name@],
                None => !self@.functions.contains_key(name@),
            },
    {
        match self.functions.get(name.as_str()) {
            Some(function) => Some(function.clone()),
            None => None,
        }
    }

    /// Hides all scopes but the innermost and hands the hidden ones out.
    fn isolate(&mut self) -> (hidden: Vec<Table<Value>>)
        requires
            old(self).wf(),
        ensures
            final(self)@ == old(self)@.with_scopes(seq![old(self)@.scopes.last()]),
            final(self).limits() == old(self).limits(),
            final(self).environments.len() == 1,
            scope_models(hidden@) == old(self)@.scopes.drop_last(),
            hidden.len() == old(self).environments.len() - 1,
    {
        let mut hidden: Vec<Table<Value>> = Vec::new();
        let innermost = self.environments.pop().unwrap();
        core::mem::swap(&mut self.environments, &mut hidden);
        self.environments.push(innermost);
        proof {
            assert(self@.scopes =~= seq![old(self)@.scopes.last()]);
            assert(scope_models(hidden@) =~= old(self)@.scopes.drop_last());
        }
        hidden
    }

    /// Puts back the scopes that `isolate` hid, in place of the visible ones.
    fn restore(&mut self, hidden: Vec<Table<Value>>)
        ensures
            final(self)@ == old(self)@.with_scopes(scope_models(hidden@)),
            final(self).limits() == old(self).limits(),
            final(self).environments.len() == hidden.len(),
    {
        self.environments = hidden;
    }

    /// Runs a program: its statements in order, up to the first that
    /// faults.
    pub fn interpret(&mut self, program: Vec<Statement>) -> (r: Result<(), RuntimeError>)
        requires
            old(self).wf(),
        ensures
            final(self).wf(),
            final(self).limits() == old(self).limits(),
            final(self)@.scopes.len() == old(self)@.scopes.len(),
            (final(self)@, outcome(r)) == run(
                old(self)@,
                statement_models(program@),
                old(self).limits(),
            ),
    {
        let ghost all = statement_models(program@);
        let mut i: usize = 0;
        assert(all.skip(0) =~= all);
        while i < program.len()
            invariant
                i <= program.len(),
                self.wf(),
                self.limits() == old(self).limits(),
                self.environments.len() == old(self).environments.len(),
                all == statement_models(program@),
                run(old(self)@, all, self.limits()) == run(self@, all.skip(i as int), self.limits()),
            decreases program.len() - i,
        {
            let depth = self.depth;
            assert(all.skip(i as int)[0] == program@[i as int]@);
            assert(all.skip(i as int).drop_first() =~= all.skip(i + 1));
            match self.eval_statement(&program[i], depth) {
                Err(fault) => {
                    return Err(fault);
                },
                Ok(_) => {},
            }
            i += 1;
        }
        Ok(())
    }

    fn eval_statement(&mut self, statement: &Statement, depth: usize) -> (r: Result<
        Flow,
        RuntimeError,
    >)
        requires
            old(self).wf(),
        ensures
            final(self).wf(),
            final(self).limits() == old(self).limits(),
            final(self).environments.len() == old(self).environments.len(),
            (final(self)@, outcome(r)) == exec(
                old(self)@,
                statement@,
                depth as nat,
                old(self).limits(),
            ),
        decreases depth, 1nat, statement, 1nat,
    {
        match statement {
            Statement::Return(e) => match self.eval_expression(e, depth) {
                Ok(value) => Ok(Flow::Return(value)),
                Err(fault) => Err(fault),
            },
            Statement::Assignment(name, e) => match self.eval_expression(e, depth) {
                Ok(value) => match self.assign_variable(name.clone(), value) {
                    Ok(()) => Ok(Flow::Next),
                    Err(fault) => Err(fault),
                },
                Err(fault) => Err(fault),
            },
            Statement::Declaration(name, e, _) => match self.eval_expression(e, depth) {
                Ok(value) => {
                    self.declare_variable(name.clone(), value);
                    Ok(Flow::Next)
                },
                Err(fault) => Err(fault),
            },
            Statement::Print(e) => match self.eval_expression(e, depth) {
                Ok(value) => {
                    self.print(value);
                    Ok(Flow::Next)
                },
                Err(fault) => Err(fault),
            },
            Statement::Expression(e) => match self.eval_expression(e, depth) {
                Ok(_) => Ok(Flow::Next),
                Err(fault) => Err(fault),
            },
            Statement::While { condition, body } => {
                self.enter_scope();
                let flow = self.eval_while_loop(statement, depth);
                self.exit_scope();
                flow
            },
            Statement::Block(body) => {
                self.enter_scope();
                let flow = self.eval_block(body, depth);
                self.exit_scope();
                flow
            },
            Statement::FunctionDeclaration { name, params, return_type, body } => {
                let function = Function {
                    params: clone_parameters(params),
                    body: clone_statements(body),
                };
                self.define(name.clone(), function);
                Ok(Flow::Next)
            },
            Statement::If { condition, then_block, else_block } => {
                match self.eval_condition(condition, depth) {
                    Err(fault) => Err(fault),
                    Ok(true) => self.eval_block(then_block, depth),
                    Ok(false) => match else_block {
                        Some(block) => self.eval_block(block, depth),
                        None => Ok(Flow::Next),
                    },
                }
            },
        }
    }

    /// Runs statements in order, up to the first that returns or faults.
    fn eval_block(&mut self, statements: &Vec<Statement>, depth: usize) -> (r: Result<
        Flow,
        RuntimeError,
    >)
        requires
            old(self).wf(),
        ensures
            final(self).wf(),
            final(self).limits() == old(self).limits(),
            final(self).environments.len() == old(self).environments.len(),
            (final(self)@, outcome(r)) == exec_block(
                old(self)@,
                statement_models(statements@),
                depth as nat,
                old(self).limits(),
            ),
        decreases depth, 1nat, statements, 0nat,
    {
        let ghost all = statement_models(statements@);
        let mut i: usize = 0;
        assert(all.skip(0) =~= all);
        while i < statements.len()
            invariant
                i <= statements.len(),
                self.wf(),
                self.limits() == old(self).limits(),
                self.environments.len() == old(self).environments.len(),
                all == statement_models(statements@),
                exec_block(old(self)@, all, depth as nat, self.limits()) == exec_block(
                    self@,
                    all.skip(i as int),
                    depth as nat,
                    self.limits(),
                ),
            decreases statements.len() - i,
        {
            assert(all.skip(i as int)[0] == statements@[i as int]@);
            assert(all.skip(i as int).drop_first() =~= all.skip(i + 1));
            match self.eval_statement(&statements[i], depth) {
                Ok(Flow::Next) => {},
                Ok(Flow::Return(value)) => {
                    return Ok(Flow::Return(value));
                },
                Err(fault) => {
                    return Err(fault);
                },
            }
            i += 1;
        }
        Ok(Flow::Next)
    }

    /// Runs the loop `statement` in the scope that was entered for it.
    fn eval_while_loop(&mut self, statement: &Statement, depth: usize) -> (r: Result<
        Flow,
        RuntimeError,
    >)
        requires
            old(self).wf(),
            statement is While,
        ensures
            final(self).wf(),
            final(self).limits() == old(self).limits(),
            final(self).environments.len() == old(self).environments.len(),
            (final(self)@, outcome(r)) == exec_while(
                old(self)@,
                statement@,
                depth as nat,
                old(self).limits(),
                old(self).limits().iterations,
            ),
        decreases depth, 1nat, statement, 0nat,
    {
        match statement {
            Statement::While { condition, body } => {
                let mut rounds: u64 = self.iterations;
                loop
                    invariant
                        self.wf(),
                        self.limits() == old(self).limits(),
                        self.environments.len() == old(self).environments.len(),
                        statement is While,
                        statement->While_condition == condition,
                        statement->While_body == body,
                        exec_while(
                            old(self)@,
                            statement@,
                            depth as nat,
                            self.limits(),
                            self.limits().iterations,
                        ) == exec_while(
                            self@,
                            statement@,
                            depth as nat,
                            self.limits(),
                            rounds as nat,
                        ),
                    decreases rounds,
                {
                    match self.eval_condition(condition, depth) {
                        Err(fault) => {
                            return Err(fault);
                        },
                        Ok(false) => {
                            return Ok(Flow::Next);
                        },
                        Ok(true) => {},
                    }
                    if rounds == 0 {
                        return Err(RuntimeFault::IterationLimitExceeded);
                    }
                    match self.eval_block(body, depth) {
                        Ok(Flow::Next) => {},
                        Ok(Flow::Return(value)) => {
                            return Ok(Flow::Return(value));
                        },
                        Err(fault) => {
                            return Err(fault);
                        },
                    }
                    rounds -= 1;
                }
            },
            _ => Ok(Flow::Next),
        }
    }

    fn eval_condition(&mut self, test: &Expression, depth: usize) -> (r: Result<bool, RuntimeError>)
        requires
            old(self).wf(),
        ensures
            final(self).wf(),
            final(self).limits() == old(self).limits(),
            final(self).environments.len() == old(self).environments.len(),
            (final(self)@, outcome(r)) == condition(
                old(self)@,
                test@,
                depth as nat,
                old(self).limits(),
            ),
        decreases depth, 0nat, test, 1nat,
    {
        match self.eval_expression(test, depth) {
            Ok(Value::Bool(b)) => Ok(b),
            Ok(_) => Err(RuntimeFault::ConditionNotBoolean),
            Err(fault) => Err(fault),
        }
    }

    fn eval_expression(&mut self, expression: &Expression, depth: usize) -> (r: Result<
        Value,
        RuntimeError,
    >)
        requires
            old(self).wf(),
        ensures
            final(self).wf(),
            final(self).limits() == old(self).limits(),
            final(self).environments.len() == old(self).environments.len(),
            (final(self)@, outcome(r)) == eval(
                old(self)@,
                expression@,
                depth as nat,
                old(self).limits(),
            ),
        decreases depth, 0nat, expression, 0nat,
    {
        match expression {
            Expression::Number(n) => Ok(Value::Number(*n)),
            Expression::Bool(b) => Ok(Value::Bool(*b)),
            Expression::Variable(name) => self.resolve_variable(name),
            Expression::BinaryOperation { left, operator, right } => {
                let a = match self.eval_expression(left, depth) {
                    Ok(value) => value,
                    Err(fault) => {
                        return Err(fault);
                    },
                };
                let b = match self.eval_expression(right, depth) {
                    Ok(value) => value,
                    Err(fault) => {
                        return Err(fault);
                    },
                };
                apply_operator(operator, a, b)
            },
            Expression::FunctionCall { name, arguments } => self.call(name, arguments, depth),
        }
    }

    /// Calls the function `name` on `arguments`.
    fn call(&mut self, name: &String, arguments: &Vec<Expression>, depth: usize) -> (r: Result<
        Value,
        RuntimeError,
    >)
        requires
            old(self).wf(),
        ensures
            final(self).wf(),
            final(self).limits() == old(self).limits(),
            final(self).environments.len() == old(self).environments.len(),
            (final(self)@, outcome(r)) == eval(
                old(self)@,
                ExprModel::Call { name: name@, arguments: expression_models(arguments@) },
                depth as nat,
                old(self).limits(),
            ),
        decreases depth, 0nat, arguments, 0nat,
    {
        let function = match self.function(name) {
            Some(function) => function,
            None => {
                return Err(RuntimeFault::UndefinedFunction(name.clone()));
            },
        };
        if arguments.len() != function.params.len() {
            return Err(RuntimeFault::WrongArgumentCount(name.clone()));
        }
        if depth == 0 {
            return Err(RuntimeFault::CallDepthExceeded);
        }
        let ghost params = function@.params;
        let ghost all = expression_models(arguments@);
        self.enter_scope();
        let mut i: usize = 0;
        assert(all.skip(0) =~= all);
        assert(params.skip(0) =~= params);
        while i < arguments.len()
            invariant
                i <= arguments.len(),
                old(self).wf(),
                depth > 0,
                old(self)@.functions.contains_key(name@),
                old(self)@.functions[name@] == function@,
                all.len() == params.len(),
                arguments.len() == function.params.len(),
                params == function@.params,
                params == parameter_models(function.params@),
                all == expression_models(arguments@),
                self.limits() == old(self).limits(),
                self.environments.len() == old(self).environments.len() + 1,
                bind(old(self)@.enter(), params, all, depth as nat, self.limits()) == bind(
                    self@,
                    params.skip(i as int),
                    all.skip(i as int),
                    depth as nat,
                    self.limits(),
                ),
            decreases arguments.len() - i,
        {
            assert(all.skip(i as int)[0] == arguments@[i as int]@);
            assert(all.skip(i as int).drop_first() =~= all.skip(i + 1));
            assert(params.skip(i as int).drop_first() =~= params.skip(i + 1));
            assert(params.skip(i as int)[0].0 == function.params@[i as int].0@);
            match self.eval_expression(&arguments[i], depth) {
                Err(fault) => {
                    self.exit_scope();
                    return Err(fault);
                },
                Ok(value) => {
                    self.declare_variable(function.params[i].0.clone(), value);
                },
            }
            i += 1;
        }
        let hidden = self.isolate();
        let flow = self.eval_block(&function.body, depth - 1);
        self.restore(hidden);
        match flow {
            Err(fault) => Err(fault),
            Ok(Flow::Return(value)) => Ok(value),
            Ok(Flow::Next) => Ok(Value::Void),
        }
    }
}

/// Assigning to a name reaches the innermost scope that holds it.
pub proof fn lemma_assign_at(scopes: Seq<ScopeModel>, name: Seq<char>, value: Value, i: int)
    requires
        0 <= i < scopes.len(),
        scopes[i].contains_key(name),
        forall|k: int| i < k < scopes.len() ==> !(#[trigger] scopes[k]).contains_key(name),
    ensures
        assign(scopes, name, value) == Some(scopes.update(i, scopes[i].insert(name, value))),
    decreases scopes.len(),
{
    if i == scopes.len() - 1 {
        assert(scopes.drop_last().push(scopes.last().insert(name, value)) =~= scopes.update(
            i,
            scopes[i].insert(name, value),
        ));
    } else {
        lemma_assign_at(scopes.drop_last(), name, value, i);
        assert(scopes.drop_last().update(i, scopes[i].insert(name, value)).push(scopes.last())
            =~= scopes.update(i, scopes[i].insert(name, value)));
    }
}

/// Assigning to a name that no scope holds reaches nothing.
pub proof fn lemma_assign_nowhere(scopes: Seq<ScopeModel>, name: Seq<char>, value: Value)
    requires
        forall|k: int| 0 <= k < scopes.len() ==> !(#[trigger] scopes[k]).contains_key(name),
    ensures
        assign(scopes, name, value) is None,
    decreases scopes.len(),
{
    if scopes.len() > 0 {
        lemma_assign_nowhere(scopes.drop_last(), name, value);
    }
}

/// Looking a name up finds the innermost scope that holds it.
pub proof fn lemma_lookup_at(scopes: Seq<ScopeModel>, name: Seq<char>, i: int)
    requires
        0 <= i < scopes.len(),
        scopes[i].contains_key(name),
        forall|k: int| i < k < scopes.len() ==> !(#[trigger] scopes[k]).contains_key(name),
    ensures
        lookup(scopes, name) == Some(scopes[i][name]),
    decreases scopes.len(),
{
    if i < scopes.len() - 1 {
        lemma_lookup_at(scopes.drop_last(), name, i);
    }
}

/// Looking up a name that no scope holds finds nothing.
pub proof fn lemma_lookup_nowhere(scopes: Seq<ScopeModel>, name: Seq<char>)
    requires
        forall|k: int| 0 <= k < scopes.len() ==> !(#[trigger] scopes[k]).contains_key(name),
    ensures
        lookup(scopes, name) is None,
    decreases scopes.len(),
{
    if scopes.len() > 0 {
        lemma_lookup_nowhere(scopes.drop_last(), name);
    }
}

} // verus!
