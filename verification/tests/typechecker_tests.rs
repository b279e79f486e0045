use froggle::lexer::Lexer;
use froggle::parser::Expression::{Number, Variable};
use froggle::parser::{Expression, Parser, Statement, Type};
use froggle::typechecker::{TypeChecker, TypeError};

fn number_expr(n: i32) -> Expression {
    Expression::Number(n)
}

fn bool_expr(b: bool) -> Expression {
    Expression::Bool(b)
}

fn var(name: &str) -> Expression {
    Expression::Variable(name.to_string())
}

fn binop(left: Expression, op: &str, right: Expression) -> Expression {
    Expression::BinaryOperation {
        left: Box::new(left),
        operator: op.to_string(),
        right: Box::new(right),
    }
}

fn check_source(source: &str) -> Result<(), TypeError> {
    let tokens = Lexer::new(source).parse().unwrap();
    let program = Parser::new(tokens).parse().unwrap();
    TypeChecker::new().check(program)
}

fn undefined_variable(name: &str) -> TypeError {
    TypeError::UndefinedVariable(name.to_string())
}

fn operands(operator: &str, left: Type, right: Type) -> TypeError {
    TypeError::OperandMismatch { operator: operator.to_string(), left, right }
}

#[test]
fn test_variable_declaration_and_assignment() {
    let mut checker = TypeChecker::new();
    let stmts = vec![
        Statement::Declaration("x".into(), number_expr(10), None),
        Statement::Assignment("x".into(), number_expr(42)),
    ];
    checker.check(stmts).unwrap();
}

#[test]
fn test_type_mismatch_assignment() {
    let mut checker = TypeChecker::new();
    let stmts = vec![
        Statement::Declaration("x".into(), number_expr(10), None),
        Statement::Assignment("x".into(), bool_expr(true)),
    ];
    assert_eq!(
        checker.check(stmts),
        Err(TypeError::AssignmentMismatch {
            name: "x".to_string(),
            expected: Type::Number,
            found: Type::Boolean,
        })
    );
}

#[test]
fn test_binary_operation_number_addition() {
    let checker = TypeChecker::new();
    let expr = binop(number_expr(1), "+", number_expr(2));
    let inferred = checker.infer_datatype(&expr).unwrap();
    assert_eq!(inferred, Type::Number);
}

#[test]
fn test_while_condition_type_check() {
    let mut checker = TypeChecker::new();
    let stmts = vec![
        Statement::While {
            condition: number_expr(1),
            body: vec![],
        }, // wrong type
    ];
    assert_eq!(checker.check(stmts), Err(TypeError::ConditionNotBoolean(Type::Number)));
}

#[test]
fn test_valid_while_condition() {
    let mut checker = TypeChecker::new();
    let stmts = vec![
        Statement::Declaration("cond".into(), bool_expr(true), None),
        Statement::While {
            condition: var("cond"),
            body: vec![
                Statement::Declaration("x".into(), number_expr(5), None),
                Statement::Assignment("x".into(), number_expr(10)),
            ],
        },
    ];
    checker.check(stmts).unwrap(); // should not fail
}

#[test]
fn test_scope_within_while_block() {
    let mut checker = TypeChecker::new();
    let stmts = vec![
        Statement::Declaration("x".to_string(), Number(0), None),
        Statement::While {
            condition: bool_expr(true),
            body: vec![Statement::Assignment("x".to_string(), Number(10))],
        },
    ];
    checker.check(stmts).unwrap();
}

#[test]
fn test_function_declaration_and_return_type() {
    let mut checker = TypeChecker::new();
    let stmts = vec![Statement::FunctionDeclaration {
        name: "add".into(),
        params: vec![("a".into(), Type::Number), ("b".into(), Type::Number)],
        return_type: Type::Number,
        body: vec![Statement::Return(binop(var("a"), "+", var("b")))],
    }];
    checker.check(stmts).unwrap();
}

#[test]
fn literals_have_their_types() {
    let checker = TypeChecker::new();
    assert_eq!(checker.infer_datatype(&number_expr(3)), Ok(Type::Number));
    assert_eq!(checker.infer_datatype(&bool_expr(false)), Ok(Type::Boolean));
}

#[test]
fn a_variable_has_its_declared_type() {
    let mut checker = TypeChecker::new();
    checker
        .check(vec![
            Statement::Declaration("n".into(), number_expr(1), None),
            Statement::Declaration("b".into(), bool_expr(true), Some(Type::Boolean)),
        ])
        .unwrap();
    assert_eq!(checker.infer_datatype(&Variable("n".to_string())), Ok(Type::Number));
    assert_eq!(checker.infer_datatype(&var("b")), Ok(Type::Boolean));
    assert_eq!(checker.infer_datatype(&var("c")), Err(undefined_variable("c")));
}

#[test]
fn arithmetic_takes_numbers_and_gives_a_number() {
    let checker = TypeChecker::new();
    for operator in ["+", "-", "*", "/"] {
        assert_eq!(
            checker.infer_datatype(&binop(number_expr(1), operator, number_expr(2))),
            Ok(Type::Number)
        );
        assert_eq!(
            checker.infer_datatype(&binop(bool_expr(true), operator, number_expr(2))),
            Err(operands(operator, Type::Boolean, Type::Number))
        );
        assert_eq!(
            checker.infer_datatype(&binop(number_expr(1), operator, bool_expr(true))),
            Err(operands(operator, Type::Number, Type::Boolean))
        );
    }
}

#[test]
fn ordering_takes_numbers_and_gives_a_boolean() {
    let checker = TypeChecker::new();
    for operator in [">", "<"] {
        assert_eq!(
            checker.infer_datatype(&binop(number_expr(1), operator, number_expr(2))),
            Ok(Type::Boolean)
        );
        assert_eq!(
            checker.infer_datatype(&binop(bool_expr(true), operator, bool_expr(false))),
            Err(operands(operator, Type::Boolean, Type::Boolean))
        );
    }
}

#[test]
fn equality_takes_two_of_a_kind() {
    let checker = TypeChecker::new();
    assert_eq!(
        checker.infer_datatype(&binop(number_expr(1), "==", number_expr(2))),
        Ok(Type::Boolean)
    );
    assert_eq!(
        checker.infer_datatype(&binop(bool_expr(true), "==", bool_expr(false))),
        Ok(Type::Boolean)
    );
    assert_eq!(
        checker.infer_datatype(&binop(bool_expr(true), "==", number_expr(1))),
        Err(operands("==", Type::Boolean, Type::Number))
    );
}

#[test]
fn unknown_operator() {
    let checker = TypeChecker::new();
    assert_eq!(
        checker.infer_datatype(&binop(number_expr(1), "%", number_expr(2))),
        Err(TypeError::UnknownOperator("%".to_string()))
    );
}

#[test]
fn operands_are_checked_before_the_operator() {
    let checker = TypeChecker::new();
    assert_eq!(
        checker.infer_datatype(&binop(var("a"), "%", var("b"))),
        Err(undefined_variable("a"))
    );
    assert_eq!(
        checker.infer_datatype(&binop(number_expr(1), "%", var("b"))),
        Err(undefined_variable("b"))
    );
}

#[test]
fn declaration_with_a_type_that_does_not_fit() {
    assert_eq!(
        check_source("let x: bool = 1;"),
        Err(TypeError::DeclarationMismatch {
            name: "x".to_string(),
            declared: Type::Boolean,
            found: Type::Number,
        })
    );
    assert_eq!(
        check_source("let x: number = 1 < 2;"),
        Err(TypeError::DeclarationMismatch {
            name: "x".to_string(),
            declared: Type::Number,
            found: Type::Boolean,
        })
    );
}

#[test]
fn boolean_assigned_to_a_number() {
    assert_eq!(
        check_source("let x: bool = true; let y: number = 1; y = x;"),
        Err(TypeError::AssignmentMismatch {
            name: "y".to_string(),
            expected: Type::Number,
            found: Type::Boolean,
        })
    );
}

#[test]
fn assignment_to_a_variable_that_is_not_declared() {
    assert_eq!(check_source("y = 5;"), Err(undefined_variable("y")));
    // The variable is looked up before the value is.
    assert_eq!(check_source("y = z;"), Err(undefined_variable("y")));
}

#[test]
fn print_checks_its_expression() {
    assert_eq!(check_source("croak 1 + 2;"), Ok(()));
    assert_eq!(check_source("croak nothing;"), Err(undefined_variable("nothing")));
    assert_eq!(
        check_source("croak 1 + true;"),
        Err(operands("+", Type::Number, Type::Boolean))
    );
}

#[test]
fn if_condition_must_be_boolean() {
    assert_eq!(
        check_source("if 1 { }"),
        Err(TypeError::ConditionNotBoolean(Type::Number))
    );
    assert_eq!(check_source("if 1 < 2 { } else { }"), Ok(()));
}

#[test]
fn a_block_hides_what_it_declares() {
    assert_eq!(check_source("{ let x = 1; croak x; } croak x;"), Err(undefined_variable("x")));
    assert_eq!(
        check_source("while false { let x = 1; } croak x;"),
        Err(undefined_variable("x"))
    );
}

#[test]
fn each_branch_has_a_scope_of_its_own() {
    assert_eq!(
        check_source("if true { let x = 1; } else { croak x; }"),
        Err(undefined_variable("x"))
    );
    assert_eq!(
        check_source("if true { let x = 1; } croak x;"),
        Err(undefined_variable("x"))
    );
}

#[test]
fn inner_declaration_shadows_the_outer_one() {
    assert_eq!(
        check_source("let x = 1; { let x = true; if x { } } x = 2;"),
        Ok(())
    );
    assert_eq!(
        check_source("let x = 1; { let x = true; x = 2; }"),
        Err(TypeError::AssignmentMismatch {
            name: "x".to_string(),
            expected: Type::Boolean,
            found: Type::Number,
        })
    );
}

#[test]
fn a_call_has_the_result_type_of_the_function() {
    assert_eq!(
        check_source("func f(): number { return 1; } let x: number = f();"),
        Ok(())
    );
    assert_eq!(
        check_source("func f(): bool { return true; } let x: number = f();"),
        Err(TypeError::DeclarationMismatch {
            name: "x".to_string(),
            declared: Type::Number,
            found: Type::Boolean,
        })
    );
    assert_eq!(
        check_source("func f() { } let x: number = f();"),
        Err(TypeError::DeclarationMismatch {
            name: "x".to_string(),
            declared: Type::Number,
            found: Type::Void,
        })
    );
}

#[test]
fn call_of_a_function_that_is_not_declared() {
    assert_eq!(
        check_source("croak g(1);"),
        Err(TypeError::UndefinedFunction("g".to_string()))
    );
    assert_eq!(
        check_source("{ func g() { } } g();"),
        Err(TypeError::UndefinedFunction("g".to_string()))
    );
}

#[test]
fn a_function_may_call_itself() {
    assert_eq!(
        check_source(
            "func fact(n: number): number { if n < 2 { return 1; } return n * fact(n - 1); }"
        ),
        Ok(())
    );
}

#[test]
fn arguments_of_a_call_are_not_checked() {
    assert_eq!(
        check_source("func f(a: number): number { return a; } croak f(true, nowhere, 1 + false);"),
        Ok(())
    );
}

#[test]
fn the_value_of_a_return_is_not_held_against_the_result_type() {
    assert_eq!(check_source("func f(): number { return true; }"), Ok(()));
    assert_eq!(
        check_source("func f(): number { return missing; }"),
        Err(undefined_variable("missing"))
    );
}

#[test]
fn parameters_are_variables_of_the_body_only() {
    assert_eq!(
        check_source("func f(a: number, b: bool) { if b { croak a + 1; } } croak a;"),
        Err(undefined_variable("a"))
    );
    assert_eq!(
        check_source("func f(a: bool) { croak a + 1; }"),
        Err(operands("+", Type::Boolean, Type::Number))
    );
}

#[test]
fn a_function_body_sees_the_variables_around_the_declaration() {
    assert_eq!(check_source("let g = 1; func f(): number { return g; }"), Ok(()));
}

#[test]
fn what_was_declared_before_the_error_stays() {
    let mut checker = TypeChecker::new();
    let result = checker.check(vec![
        Statement::Declaration("x".into(), number_expr(1), None),
        Statement::Block(vec![
            Statement::Declaration("y".into(), number_expr(1), None),
            Statement::Print(var("missing")),
        ]),
        Statement::Declaration("z".into(), number_expr(1), None),
    ]);
    assert_eq!(result, Err(undefined_variable("missing")));
    assert_eq!(checker.infer_datatype(&var("x")), Ok(Type::Number));
    assert_eq!(checker.infer_datatype(&var("y")), Err(undefined_variable("y")));
    assert_eq!(checker.infer_datatype(&var("z")), Err(undefined_variable("z")));
}

#[test]
fn accept_does_what_check_does() {
    let declaration = Statement::Declaration("x".into(), number_expr(1), Some(Type::Number));
    let misuse = Statement::Assignment("x".into(), bool_expr(true));
    let mut checker = TypeChecker::new();
    assert_eq!(declaration.accept(&mut checker), Ok(()));
    assert_eq!(
        misuse.accept(&mut checker),
        Err(TypeError::AssignmentMismatch {
            name: "x".to_string(),
            expected: Type::Number,
            found: Type::Boolean,
        })
    );
    let nested = Statement::If {
        condition: binop(var("x"), "<", number_expr(2)),
        then_block: vec![Statement::While {
            condition: bool_expr(false),
            body: vec![Statement::Block(vec![Statement::Return(var("x"))])],
        }],
        else_block: Some(vec![Statement::Expression(var("y"))]),
    };
    assert_eq!(nested.accept(&mut checker), Err(undefined_variable("y")));
    let function = Statement::FunctionDeclaration {
        name: "f".into(),
        params: vec![("a".into(), Type::Number)],
        return_type: Type::Void,
        body: vec![Statement::Print(var("a"))],
    };
    assert_eq!(function.accept(&mut checker), Ok(()));
    assert_eq!(
        Statement::Print(binop(number_expr(1), "+", bool_expr(true))).accept(&mut checker),
        Err(operands("+", Type::Number, Type::Boolean))
    );
}
