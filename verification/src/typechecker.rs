//! The type checker: validates a program against the typing rules, without
//! changing it.

use vstd::prelude::*;
use crate::parser::{
    parameter_models, statement_models, ASTVisitor, Expression, Statement, Type,
};
use crate::syntax::StmtModel;
use crate::table::Table;
use crate::text::same_text;
use crate::typing::{
    check_block, check_condition, check_expression, check_scoped, check_statement,
    declare_function, declare_parameters, declare_variable, empty_frame, enter, fresh,
    function_signature, infer, leave, operation_type, parameter_types, variable_type, Context,
    Frame, SignatureModel, TypeFaultModel,
};

verus! {

/// Why a program was rejected. `S` is the type of the names in it.
#[derive(Debug, PartialEq, Eq)]
pub enum TypeFault<S> {
    /// A variable is used that no enclosing scope declares.
    UndefinedVariable(S),
    /// A function is called that no enclosing scope declares.
    UndefinedFunction(S),
    /// The initializer of a declaration has another type than the one
    /// written.
    DeclarationMismatch { name: S, declared: Type, found: Type },
    /// The value assigned to a variable has another type than the variable.
    AssignmentMismatch { name: S, expected: Type, found: Type },
    /// The condition of a loop or a conditional is not a boolean.
    ConditionNotBoolean(Type),
    /// An operator is applied to operands of types that it does not take.
    OperandMismatch { operator: S, left: Type, right: Type },
    /// A binary operation names no operator of the language.
    UnknownOperator(S),
}

/// Why a program was rejected.
pub type TypeError = TypeFault<String>;

impl View for TypeFault<String> {
    type V = TypeFaultModel;

    open spec fn view(&self) -> TypeFaultModel {
        match self {
            TypeFault::UndefinedVariable(name) => TypeFault::UndefinedVariable(name@),
            TypeFault::UndefinedFunction(name) => TypeFault::UndefinedFunction(name@),
            TypeFault::DeclarationMismatch { name, declared, found } => {
                TypeFault::DeclarationMismatch { name: name@, declared: *declared, found: *found }
            },
            TypeFault::AssignmentMismatch { name, expected, found } => {
                TypeFault::AssignmentMismatch { name: name@, expected: *expected, found: *found }
            },
            TypeFault::ConditionNotBoolean(t) => TypeFault::ConditionNotBoolean(*t),
            TypeFault::OperandMismatch { operator, left, right } => TypeFault::OperandMismatch {
                operator: operator@,
                left: *left,
                right: *right,
            },
            TypeFault::UnknownOperator(operator) => TypeFault::UnknownOperator(operator@),
        }
    }
}

/// What a step of the checker returned, with the names of an error as
/// character sequences.
pub open spec fn verdict<T>(r: Result<T, TypeError>) -> Result<T, TypeFaultModel> {
    match r {
        Ok(value) => Ok(value),
        Err(fault) => Err(fault@),
    }
}

/// The parameter types and the result type of a function.
#[derive(Debug)]
pub struct Signature {
    pub params: Vec<Type>,
    pub result: Type,
}

impl View for Signature {
    type V = SignatureModel;

    open spec fn view(&self) -> SignatureModel {
        SignatureModel { params: self.params@, result: self.result }
    }
}

/// One scope of the checker.
struct Scope {
    variables: Table<Type>,
    functions: Table<Signature>,
}

impl View for Scope {
    type V = Frame;

    closed spec fn view(&self) -> Frame {
        Frame {
            variables: self.variables@,
            functions: self.functions@.map_values(|s: Signature| s@),
        }
    }
}

/// A type checker with its scopes.
pub struct TypeChecker {
    scopes: Vec<Scope>,
}

impl View for TypeChecker {
    type V = Context;

    closed spec fn view(&self) -> Context {
        self.scopes@.map_values(|scope: Scope| scope@)
    }
}

/// The type that a binary operator gives on operands of the given types.
pub fn operator_type(operator: &String, left: Type, right: Type) -> (r: Result<Type, TypeError>)
    ensures
        verdict(r) == operation_type(operator@, left, right),
{
    let op = operator.as_str();
    if same_text(op, "+") || same_text(op, "-") || same_text(op, "*") || same_text(op, "/") {
        if left == Type::Number && right == Type::Number {
            Ok(Type::Number)
        } else {
            Err(TypeFault::OperandMismatch { operator: operator.clone(), left, right })
        }
    } else if same_text(op, ">") || same_text(op, "<") {
        if left == Type::Number && right == Type::Number {
            Ok(Type::Boolean)
        } else {
            Err(TypeFault::OperandMismatch { operator: operator.clone(), left, right })
        }
    } else if same_text(op, "==") {
        if left == right {
            Ok(Type::Boolean)
        } else {
            Err(TypeFault::OperandMismatch { operator: operator.clone(), left, right })
        }
    } else {
        Err(TypeFault::UnknownOperator(operator.clone()))
    }
}

impl TypeChecker {
    /// There is a scope to declare in.
    pub open spec fn wf(&self) -> bool {
        self@.len() >= 1
    }

    /// A checker in which nothing is declared.
    pub fn new() -> (checker: TypeChecker)
        ensures
            checker.wf(),
            checker@ == fresh(),
    {
        let mut scopes: Vec<Scope> = Vec::new();
        scopes.push(Scope { variables: Table::new(), functions: Table::new() });
        let checker = TypeChecker { scopes };
        proof {
            assert(checker@[0].functions =~= empty_frame().functions);
            assert(checker@ =~= fresh());
        }
        checker
    }

    fn enter_scope(&mut self)
        ensures
            final(self)@ == enter(old(self)@),
    {
        self.scopes.push(Scope { variables: Table::new(), functions: Table::new() });
        proof {
            assert(self@.last().functions =~= empty_frame().functions);
            assert(self@ =~= enter(old(self)@));
        }
    }

    fn exit_scope(&mut self)
        requires
            old(self)@.len() >= 1,
        ensures
            final(self)@ == leave(old(self)@),
    {
        self.scopes.pop();
        assert(self@ =~= leave(old(self)@));
    }

    fn declare_variable(&mut self, name: String, of_type: Type)
        requires
            old(self).wf(),
        ensures
            final(self)@ == declare_variable(old(self)@, name@, of_type),
    {
        let last = self.scopes.len() - 1;
        self.scopes[last].variables.insert(name, of_type);
        assert(self@ =~= declare_variable(old(self)@, name@, of_type));
    }

    fn resolve_variable(&self, name: &str) -> (r: Result<Type, TypeError>)
        ensures
            match variable_type(self@, name@) {
                Some(t) => r == Ok::<Type, TypeError>(t),
                None => verdict(r) == Err::<Type, TypeFaultModel>(
                    TypeFault::UndefinedVariable(name@),
                ),
            },
    {
        let mut i: usize = self.scopes.len();
        assert(self@.take(i as int) =~= self@);
        while i > 0
            invariant
                i <= self.scopes.len(),
                variable_type(self@, name@) == variable_type(self@.take(i as int), name@),
            decreases i,
        {
            i -= 1;
            assert(self@.take(i + 1).drop_last() =~= self@.take(i as int));
            assert(self@.take(i + 1).last() == self.scopes@[i as int]@);
            match self.scopes[i].variables.get(name) {
                Some(t) => {
                    return Ok(*t);
                },
                None => {},
            }
        }
        Err(TypeFault::UndefinedVariable(String::from_str(name)))
    }

    fn declare_function(&mut self, name: String, parameters: Vec<Type>, return_type: Type)
        requires
            old(self).wf(),
        ensures
            final(self)@ == declare_function(
                old(self)@,
                name@,
                SignatureModel { params: parameters@, result: return_type },
            ),
    {
        let last = self.scopes.len() - 1;
        let ghost signature = SignatureModel { params: parameters@, result: return_type };
        self.scopes[last].functions.insert(name, Signature { params: parameters, result: return_type });
        proof {
            assert(self@.last().functions =~= old(self)@.last().functions.insert(name@, signature));
            assert(self@ =~= declare_function(old(self)@, name@, signature));
        }
    }

    /// The result type of the function `name`.
    fn resolve_function(&self, name: &str) -> (r: Result<Type, TypeError>)
        ensures
            match function_signature(self@, name@) {
                Some(signature) => r == Ok::<Type, TypeError>(signature.result),
                None => verdict(r) == Err::<Type, TypeFaultModel>(
                    TypeFault::UndefinedFunction(name@),
                ),
            },
    {
        let mut i: usize = self.scopes.len();
        assert(self@.take(i as int) =~= self@);
        while i > 0
            invariant
                i <= self.scopes.len(),
                function_signature(self@, name@) == function_signature(
                    self@.take(i as int),
                    name@,
                ),
            decreases i,
        {
            i -= 1;
            assert(self@.take(i + 1).drop_last() =~= self@.take(i as int));
            assert(self@.take(i + 1).last() == self.scopes@[i as int]@);
            match self.scopes[i].functions.get(name) {
                Some(signature) => {
                    return Ok(signature.result);
                },
                None => {},
            }
        }
        Err(TypeFault::UndefinedFunction(String::from_str(name)))
    }

    /// The type of an expression.
    pub fn infer_datatype(&self, exp: &Expression) -> (r: Result<Type, TypeError>)
        ensures
            verdict(r) == infer(self@, exp@),
        decreases exp,
    {
        match exp {
            Expression::Number(_) => Ok(Type::Number),
            Expression::Bool(_) => Ok(Type::Boolean),
            Expression::Variable(name) => self.resolve_variable(name.as_str()),
            Expression::BinaryOperation { left, operator, right } => {
                let left_type = match self.infer_datatype(left) {
                    Ok(t) => t,
                    Err(fault) => {
                        return Err(fault);
                    },
                };
                let right_type = match self.infer_datatype(right) {
                    Ok(t) => t,
                    Err(fault) => {
                        return Err(fault);
                    },
                };
                operator_type(operator, left_type, right_type)
            },
            Expression::FunctionCall { name, arguments } => self.resolve_function(name.as_str()),
        }
    }

    fn expect_boolean(&self, test: &Expression) -> (r: Result<(), TypeError>)
        ensures
            verdict(r) == check_condition(self@, test@),
    {
        match self.infer_datatype(test) {
            Ok(Type::Boolean) => Ok(()),
            Ok(t) => Err(TypeFault::ConditionNotBoolean(t)),
            Err(fault) => Err(fault),
        }
    }

    fn expect_typed(&self, e: &Expression) -> (r: Result<(), TypeError>)
        ensures
            verdict(r) == check_expression(self@, e@),
    {
        match self.infer_datatype(e) {
            Ok(_) => Ok(()),
            Err(fault) => Err(fault),
        }
    }

    /// Checks the statements of a program in order, up to the first that
    /// is rejected.
    pub fn check(&mut self, stmts: Vec<Statement>) -> (r: Result<(), TypeError>)
        requires
            old(self).wf(),
        ensures
            final(self).wf(),
            final(self)@.len() == old(self)@.len(),
            (final(self)@, verdict(r)) == check_block(old(self)@, statement_models(stmts@)),
    {
        self.check_all(&stmts)
    }

    /// Checks statements in order, up to the first that is rejected.
    fn check_all(&mut self, statements: &Vec<Statement>) -> (r: Result<(), TypeError>)
        requires
            old(self).wf(),
        ensures
            final(self)@.len() == old(self)@.len(),
            (final(self)@, verdict(r)) == check_block(old(self)@, statement_models(statements@)),
        decreases statements, 0nat,
    {
        let ghost all = statement_models(statements@);
        let mut i: usize = 0;
        assert(all.skip(0) =~= all);
        while i < statements.len()
            invariant
                i <= statements.len(),
                old(self).wf(),
                self@.len() == old(self)@.len(),
                all == statement_models(statements@),
                check_block(old(self)@, all) == check_block(self@, all.skip(i as int)),
            decreases statements.len() - i,
        {
            assert(all.skip(i as int)[0] == statements@[i as int]@);
            assert(all.skip(i as int).drop_first() =~= all.skip(i + 1));
            match self.check_statement(&statements[i]) {
                Ok(()) => {},
                Err(fault) => {
                    return Err(fault);
                },
            }
            i += 1;
        }
        Ok(())
    }

    /// Checks statements in a scope of their own.
    fn check_in_scope(&mut self, statements: &Vec<Statement>) -> (r: Result<(), TypeError>)
        requires
            old(self).wf(),
        ensures
            final(self)@.len() == old(self)@.len(),
            (final(self)@, verdict(r)) == check_scoped(old(self)@, statement_models(statements@)),
        decreases statements, 1nat,
    {
        self.enter_scope();
        let r = self.check_all(statements);
        self.exit_scope();
        r
    }

    /// Checks one statement.
    pub fn check_statement(&mut self, statement: &Statement) -> (r: Result<(), TypeError>)
        requires
            old(self).wf(),
        ensures
            final(self)@.len() == old(self)@.len(),
            (final(self)@, verdict(r)) == check_statement(old(self)@, statement@),
        decreases statement, 0nat,
    {
        match statement {
            Statement::Declaration(name, value, declared) => {
                let found = match self.infer_datatype(value) {
                    Ok(t) => t,
                    Err(fault) => {
                        return Err(fault);
                    },
                };
                match declared {
                    Some(d) => {
                        if *d != found {
                            return Err(
                                TypeFault::DeclarationMismatch {
                                    name: name.clone(),
                                    declared: *d,
                                    found,
                                },
                            );
                        }
                    },
                    None => {},
                }
                self.declare_variable(name.clone(), found);
                Ok(())
            },
            Statement::Assignment(name, value) => {
                let expected = match self.resolve_variable(name.as_str()) {
                    Ok(t) => t,
                    Err(fault) => {
                        return Err(fault);
                    },
                };
                let found = match self.infer_datatype(value) {
                    Ok(t) => t,
                    Err(fault) => {
                        return Err(fault);
                    },
                };
                if expected != found {
                    return Err(
                        TypeFault::AssignmentMismatch { name: name.clone(), expected, found },
                    );
                }
                Ok(())
            },
            Statement::Print(e) => self.expect_typed(e),
            Statement::Expression(e) => self.expect_typed(e),
            Statement::Return(e) => self.expect_typed(e),
            Statement::While { condition, body } => {
                match self.expect_boolean(condition) {
                    Ok(()) => {},
                    Err(fault) => {
                        return Err(fault);
                    },
                }
                self.check_in_scope(body)
            },
            Statement::Block(body) => self.check_in_scope(body),
            Statement::FunctionDeclaration { name, params, return_type, body } => {
                let mut types: Vec<Type> = Vec::new();
                let mut i: usize = 0;
                while i < params.len()
                    invariant
                        i <= params.len(),
                        types@ == parameter_types(parameter_models(params@)).take(i as int),
                    decreases params.len() - i,
                {
                    types.push(params[i].1);
                    assert(parameter_types(parameter_models(params@)).take(i + 1)
                        =~= parameter_types(parameter_models(params@)).take(i as int).push(
                        params@[i as int].1,
                    ));
                    i += 1;
                }
                assert(parameter_types(parameter_models(params@)).take(params.len() as int)
                    =~= parameter_types(parameter_models(params@)));
                self.declare_function(name.clone(), types, *return_type);
                self.enter_scope();
                let ghost entered = self@;
                let ghost all = parameter_models(params@);
                let mut k: usize = 0;
                assert(all.skip(0) =~= all);
                while k < params.len()
                    invariant
                        k <= params.len(),
                        self@.len() == old(self)@.len() + 1,
                        all == parameter_models(params@),
                        declare_parameters(entered, all) == declare_parameters(
                            self@,
                            all.skip(k as int),
                        ),
                    decreases params.len() - k,
                {
                    assert(all.skip(k as int)[0] == (params@[k as int].0@, params@[k as int].1));
                    assert(all.skip(k as int).drop_first() =~= all.skip(k + 1));
                    self.declare_variable(params[k].0.clone(), params[k].1);
                    k += 1;
                }
                let r = self.check_all(body);
                self.exit_scope();
                r
            },
            Statement::If { condition, then_block, else_block } => {
                match self.expect_boolean(condition) {
                    Ok(()) => {},
                    Err(fault) => {
                        return Err(fault);
                    },
                }
                match self.check_in_scope(then_block) {
                    Ok(()) => {},
                    Err(fault) => {
                        return Err(fault);
                    },
                }
                match else_block {
                    Some(block) => self.check_in_scope(block),
                    None => Ok(()),
                }
            },
        }
    }
}

impl ASTVisitor for TypeChecker {
    type Failure = TypeError;

    open spec fn ready(&self) -> bool {
        self.wf()
    }

    open spec fn visited(
        &self,
        statement: StmtModel,
        after: &Self,
        result: Result<(), TypeError>,
    ) -> bool {
        (after@, verdict(result)) == check_statement(self@, statement)
    }

    fn visit_declaration(&mut self, name: String, expr: Expression, declared_type: Option<Type>) -> (r:
        Result<(), TypeError>) {
        self.check_statement(&Statement::Declaration(name, expr, declared_type))
    }

    fn visit_assignment(&mut self, name: String, expr: Expression) -> (r: Result<(), TypeError>) {
        self.check_statement(&Statement::Assignment(name, expr))
    }

    fn visit_print(&mut self, expr: Expression) -> (r: Result<(), TypeError>) {
        self.check_statement(&Statement::Print(expr))
    }

    fn visit_while(&mut self, condition: Expression, body: Vec<Statement>) -> (r: Result<
        (),
        TypeError,
    >) {
        self.check_statement(&Statement::While { condition, body })
    }

    fn visit_block(&mut self, statements: Vec<Statement>) -> (r: Result<(), TypeError>) {
        self.check_statement(&Statement::Block(statements))
    }

    fn visit_function_declaration(
        &mut self,
        name: String,
        params: Vec<(String, Type)>,
        return_type: Type,
        body: Vec<Statement>,
    ) -> (r: Result<(), TypeError>) {
        self.check_statement(&Statement::FunctionDeclaration { name, params, return_type, body })
    }

    fn visit_if(
        &mut self,
        condition: Expression,
        body: Vec<Statement>,
        else_branch: Option<Vec<Statement>>,
    ) -> (r: Result<(), TypeError>) {
        self.check_statement(
            &Statement::If { condition, then_block: body, else_block: else_branch },
        )
    }

    fn visit_expression(&mut self, expr: Expression) -> (r: Result<(), TypeError>) {
        self.check_statement(&Statement::Expression(expr))
    }

    fn visit_return(&mut self, expr: Expression) -> (r: Result<(), TypeError>) {
        self.check_statement(&Statement::Return(expr))
    }
}

} // verus!
