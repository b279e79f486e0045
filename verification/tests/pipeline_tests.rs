use froggle::interpreter::{Interpreter, RuntimeError, Value};
use froggle::lexer::{LexError, Lexer};
use froggle::parser::{Parser, Statement, Type};
use froggle::typechecker::{TypeChecker, TypeError};

fn program(source: &str) -> Vec<Statement> {
    let tokens = Lexer::new(source).parse().unwrap();
    Parser::new(tokens).parse().unwrap()
}

/// Checks and runs `source` from fresh environments.
fn run(source: &str) -> (Interpreter, Result<(), RuntimeError>) {
    let ast = program(source);
    let mut checker = TypeChecker::new();
    for statement in &ast {
        statement.accept(&mut checker).unwrap();
    }
    let mut interpreter = Interpreter::new();
    let result = interpreter.interpret(ast);
    (interpreter, result)
}

/// Runs `source` from fresh environments without checking it.
fn run_unchecked(source: &str) -> (Interpreter, Result<(), RuntimeError>) {
    let mut interpreter = Interpreter::new();
    let result = interpreter.interpret(program(source));
    (interpreter, result)
}

fn output_of(source: &str) -> Vec<String> {
    let (interpreter, result) = run(source);
    assert_eq!(result, Ok(()));
    interpreter.output
}

fn global(interpreter: &Interpreter, name: &str) -> Option<Value> {
    interpreter.environments[0].get(name).copied()
}

#[test]
fn declaration_with_precedence() {
    let (interpreter, result) = run("let x: number = 1 + 2 * 3; croak x;");
    assert_eq!(result, Ok(()));
    assert_eq!(interpreter.environments.len(), 1);
    assert_eq!(global(&interpreter, "x"), Some(Value::Number(7)));
    assert_eq!(interpreter.output, vec!["7"]);
}

#[test]
fn declaration_with_parentheses() {
    assert_eq!(output_of("let x: number = (1 + 2) * 3; croak x;"), vec!["9"]);
}

#[test]
fn boolean_assigned_to_number_is_rejected() {
    let ast = program("let x: bool = true; let y: number = 1; y = x;");
    assert_eq!(
        TypeChecker::new().check(ast),
        Err(TypeError::AssignmentMismatch {
            name: "y".to_string(),
            expected: Type::Number,
            found: Type::Boolean,
        })
    );
}

#[test]
fn counting_loop() {
    assert_eq!(
        output_of("let x: number = 0; while x < 3 { x = x + 1; } croak x;"),
        vec!["3"]
    );
}

#[test]
fn unknown_character_stops_before_parsing() {
    assert_eq!(
        Lexer::new("let x = 1 @ 2;").parse(),
        Err(LexError { character: '@', position: 10 })
    );
}

#[test]
fn assignment_to_undeclared_variable_parses_but_does_not_check() {
    let ast = program("y = 5;");
    assert_eq!(
        ast,
        vec![Statement::Assignment("y".to_string(), froggle::parser::Expression::Number(5))]
    );
    assert_eq!(
        TypeChecker::new().check(ast),
        Err(TypeError::UndefinedVariable("y".to_string()))
    );
}

#[test]
fn factorial_by_recursion() {
    let source = "func fact(n: number): number { if n < 2 { return 1; } return n * fact(n - 1); } croak fact(5); croak fact(0); croak fact(12);";
    assert_eq!(output_of(source), vec!["120", "1", "479001600"]);
}

#[test]
fn factorial_that_does_not_fit() {
    let source = "func fact(n: number): number { if n < 2 { return 1; } return n * fact(n - 1); } croak fact(13);";
    let (interpreter, result) = run(source);
    assert_eq!(result, Err(RuntimeError::Overflow));
    assert!(interpreter.output.is_empty());
    assert_eq!(interpreter.environments.len(), 1);
}

#[test]
fn arithmetic_as_in_school() {
    assert_eq!(
        output_of(
            "croak 2 + 3 * 4 - 10 / 5; croak (2 + 3) * (4 - 10) / 5; croak 7 / 2 * 2; croak 0 - 7 / 2; croak 100 - 10 - 1; croak 100 / 10 / 5;"
        ),
        vec!["12", "-6", "6", "-3", "89", "2"]
    );
}

#[test]
fn running_twice_gives_the_same() {
    let source = "let a = 3; let b = a * a; func twice(n: number): number { return n + n; } while a < 6 { a = a + 1; croak twice(a); } croak b == 9;";
    let (first, first_result) = run(source);
    let (second, second_result) = run(source);
    assert_eq!(first_result, Ok(()));
    assert_eq!(first_result, second_result);
    assert_eq!(first.output, second.output);
    assert_eq!(first.output, vec!["8", "10", "12", "true"]);
    assert_eq!(first.environments.len(), second.environments.len());
    for name in ["a", "b", "n", "twice"] {
        assert_eq!(global(&first, name), global(&second, name));
    }
    assert_eq!(global(&first, "a"), Some(Value::Number(6)));
    assert_eq!(global(&first, "b"), Some(Value::Number(9)));
}

#[test]
fn checking_leaves_the_program_as_it_was() {
    let source = "let a = 1; { let a = true; } func f(n: number) { croak n; } f(a);";
    let ast = program(source);
    let mut checker = TypeChecker::new();
    for statement in &ast {
        statement.accept(&mut checker).unwrap();
    }
    assert_eq!(ast, program(source));
}

#[test]
fn shadowing_in_a_block() {
    let (interpreter, result) =
        run("let x = 1; { let x = 2; x = x + 10; croak x; } croak x;");
    assert_eq!(result, Ok(()));
    assert_eq!(interpreter.output, vec!["12", "1"]);
    assert_eq!(global(&interpreter, "x"), Some(Value::Number(1)));
}

#[test]
fn shadowing_in_a_loop() {
    let (interpreter, result) = run(
        "let x = 1; let i = 0; while i < 2 { let x = 100; x = x + i; croak x; i = i + 1; } croak x;",
    );
    assert_eq!(result, Ok(()));
    assert_eq!(interpreter.output, vec!["100", "101", "1"]);
    assert_eq!(global(&interpreter, "x"), Some(Value::Number(1)));
}

#[test]
fn shadowing_in_a_function() {
    let (interpreter, result) = run(
        "let x = 1; func f(x: number): number { x = x + 1; let x = x * 10; return x; } croak f(4); croak x;",
    );
    assert_eq!(result, Ok(()));
    assert_eq!(interpreter.output, vec!["50", "1"]);
    assert_eq!(global(&interpreter, "x"), Some(Value::Number(1)));
}

#[test]
fn assignment_reaches_the_nearest_scope_that_holds_the_name() {
    assert_eq!(
        output_of("let x = 1; { { x = 2; } let x = 3; { x = 4; } croak x; } croak x;"),
        vec!["4", "2"]
    );
}

#[test]
fn a_loop_keeps_one_scope_for_all_its_rounds() {
    // `t` is declared in the first round and still there in the second.
    let (interpreter, result) = run_unchecked(
        "let i = 0; let seen = 0; while i < 2 { if i == 1 { seen = t; } let t = 42; i = i + 1; } croak seen;",
    );
    assert_eq!(result, Ok(()));
    assert_eq!(interpreter.output, vec!["42"]);
    assert_eq!(global(&interpreter, "t"), None);
}

#[test]
fn the_branches_of_a_conditional_run_in_the_scope_around_them() {
    let (interpreter, result) =
        run_unchecked("if true { let made = 1; } else { let other = 2; } croak made;");
    assert_eq!(result, Ok(()));
    assert_eq!(interpreter.output, vec!["1"]);
    assert_eq!(global(&interpreter, "made"), Some(Value::Number(1)));
    assert_eq!(global(&interpreter, "other"), None);

    let (interpreter, result) =
        run_unchecked("if false { let made = 1; } else { let other = 2; } croak other;");
    assert_eq!(result, Ok(()));
    assert_eq!(interpreter.output, vec!["2"]);
}

#[test]
fn variables_of_a_block_are_gone_after_it() {
    let (interpreter, result) = run_unchecked("{ let inner = 1; } croak inner;");
    assert_eq!(result, Err(RuntimeError::UndefinedVariable("inner".to_string())));
    assert!(interpreter.output.is_empty());
}

#[test]
fn a_function_sees_its_parameters_and_nothing_of_its_caller() {
    let (interpreter, result) =
        run("let g = 1; func f(): number { return g; } croak 0; croak f();");
    assert_eq!(result, Err(RuntimeError::UndefinedVariable("g".to_string())));
    assert_eq!(interpreter.output, vec!["0"]);
    assert_eq!(interpreter.environments.len(), 1);
    assert_eq!(global(&interpreter, "g"), Some(Value::Number(1)));

    let (interpreter, result) = run("let g = 1; func f() { g = 2; } f();");
    assert_eq!(result, Err(RuntimeError::UndefinedVariable("g".to_string())));
    assert_eq!(global(&interpreter, "g"), Some(Value::Number(1)));
}

#[test]
fn arguments_are_evaluated_in_the_scope_of_the_caller() {
    assert_eq!(
        output_of(
            "func add(a: number, b: number): number { return a + b; } let x = 2; { let y = 3; croak add(x, y * 2); }"
        ),
        vec!["8"]
    );
}

#[test]
fn an_argument_sees_the_parameters_bound_before_it() {
    assert_eq!(
        output_of(
            "func second(a: number, b: number): number { return b; } let a = 10; croak second(1, a + 1);"
        ),
        vec!["2"]
    );
}

#[test]
fn a_function_without_return_gives_void() {
    assert_eq!(output_of("func nothing() { } croak nothing();"), vec!["void"]);
    assert_eq!(
        output_of("func maybe(n: number): number { if n < 0 { return 0; } } croak maybe(1);"),
        vec!["void"]
    );
}

#[test]
fn return_leaves_loops_and_blocks_of_the_function() {
    assert_eq!(
        output_of(
            "func find(limit: number): number { let i = 0; while i < 10 { { if i == limit { return i; } } i = i + 1; } return 99; } croak find(3); croak find(20);"
        ),
        vec!["3", "99"]
    );
}

#[test]
fn statements_after_a_return_do_not_run() {
    assert_eq!(
        output_of("func f(): number { croak 1; return 2; croak 3; } croak f();"),
        vec!["1", "2"]
    );
}

#[test]
fn a_return_outside_of_a_function_ends_only_its_statement() {
    assert_eq!(
        output_of("return 5; croak 1; if true { croak 2; return 0; croak 3; } croak 4;"),
        vec!["1", "2", "4"]
    );
}

#[test]
fn functions_are_known_everywhere_once_declared() {
    let (interpreter, result) = run_unchecked(
        "func outer(): number { return inner() + 1; } func inner(): number { return 1; } croak outer();",
    );
    assert_eq!(result, Ok(()));
    assert_eq!(interpreter.output, vec!["2"]);
    let (interpreter, result) =
        run_unchecked("{ func local(): number { return 7; } } croak local();");
    assert_eq!(result, Ok(()));
    assert_eq!(interpreter.output, vec!["7"]);
}

#[test]
fn a_function_declared_again_replaces_the_earlier_one() {
    assert_eq!(
        output_of(
            "func f(): number { return 1; } croak f(); func f(): number { return 2; } croak f();"
        ),
        vec!["1", "2"]
    );
}

#[test]
fn call_of_an_unknown_function() {
    let (_, result) = run_unchecked("croak nowhere(1);");
    assert_eq!(result, Err(RuntimeError::UndefinedFunction("nowhere".to_string())));
}

#[test]
fn call_with_the_wrong_number_of_arguments() {
    let (interpreter, result) = run("func one(a: number): number { return a; } croak one(1, 2);");
    assert_eq!(result, Err(RuntimeError::WrongArgumentCount("one".to_string())));
    assert_eq!(interpreter.environments.len(), 1);
    let (_, result) = run("func one(a: number): number { return a; } croak one();");
    assert_eq!(result, Err(RuntimeError::WrongArgumentCount("one".to_string())));
}

#[test]
fn arguments_of_the_wrong_type_are_taken() {
    assert_eq!(
        output_of("func echo(a: number): number { return a; } croak echo(true);"),
        vec!["true"]
    );
}

#[test]
fn a_fault_in_an_argument_leaves_the_scopes_as_they_were() {
    let (interpreter, result) =
        run("func f(a: number, b: number): number { return a; } croak f(1, 1 / 0);");
    assert_eq!(result, Err(RuntimeError::DivisionByZero));
    assert_eq!(interpreter.environments.len(), 1);
    assert_eq!(global(&interpreter, "a"), None);
}

#[test]
fn comparison_of_values_of_different_shapes_is_a_fault() {
    let (_, result) = run_unchecked("croak 1 == true;");
    assert_eq!(result, Err(RuntimeError::UnsupportedOperation("==".to_string())));
}

#[test]
fn deep_recursion_within_the_limit() {
    assert_eq!(
        output_of(
            "func sum(n: number): number { if n == 0 { return 0; } return n + sum(n - 1); } croak sum(150);"
        ),
        vec!["11325"]
    );
}

#[test]
fn recursion_past_the_limit_is_a_fault() {
    let (interpreter, result) = run(
        "func sum(n: number): number { if n == 0 { return 0; } return n + sum(n - 1); } croak sum(500);",
    );
    assert_eq!(result, Err(RuntimeError::CallDepthExceeded));
    assert_eq!(interpreter.environments.len(), 1);
}

#[test]
fn a_long_loop() {
    assert_eq!(
        output_of("let i = 0; let s = 0; while i < 20000 { i = i + 1; s = s + i / 1000; } croak s;"),
        vec!["190020"]
    );
}
