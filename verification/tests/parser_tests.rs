use froggle::grammar::Expected;
use froggle::lexer::{Lexer, Token};
use froggle::parser::{Expression, ParseError, Parser, Statement, Type};

fn token_number(n: i32) -> Token {
    Token::Number(n)
}

fn token_ident(name: &str) -> Token {
    Token::Identifier(name.to_string())
}

fn token_keyword(word: &str) -> Token {
    Token::Keyword(word.to_string())
}

fn token_operator(op: &str) -> Token {
    Token::Operator(op.to_string())
}

fn token_punct(p: &str) -> Token {
    Token::Punctuation(p.to_string())
}

fn token_type(p: &str) -> Token {
    Token::Type(p.to_string())
}

fn eof() -> Token {
    Token::EOF
}

fn parse(source: &str) -> Result<Vec<Statement>, ParseError> {
    let tokens = Lexer::new(source).parse().unwrap();
    Parser::new(tokens).parse()
}

fn num(n: i32) -> Expression {
    Expression::Number(n)
}

fn name(n: &str) -> Expression {
    Expression::Variable(n.to_string())
}

fn op(left: Expression, operator: &str, right: Expression) -> Expression {
    Expression::BinaryOperation {
        left: Box::new(left),
        operator: operator.to_string(),
        right: Box::new(right),
    }
}

fn call(function: &str, arguments: Vec<Expression>) -> Expression {
    Expression::FunctionCall { name: function.to_string(), arguments }
}

fn let_(variable: &str, value: Expression) -> Statement {
    Statement::Declaration(variable.to_string(), value, None)
}

fn expression_of(source: &str) -> Expression {
    match parse(source).unwrap().pop().unwrap() {
        Statement::Print(e) => e,
        other => panic!("not a print statement: {:?}", other),
    }
}

fn failure(expected: Expected, found: Option<Token>, position: usize) -> ParseError {
    ParseError { expected, found, position }
}

#[test]
fn test_parse_assignment() {
    let tokens = vec![
        token_keyword("let"),
        token_ident("x"),
        token_punct(":"),
        token_type("number"),
        token_operator("="),
        token_number(42),
        token_punct(";"),
        eof(),
    ];

    let mut parser = Parser::new(tokens);
    let ast = parser.parse().unwrap();

    // A `let` with a type gives a declaration that records the type.
    let expected = vec![Statement::Declaration(
        "x".to_string(),
        Expression::Number(42),
        Some(Type::Number),
    )];

    assert_eq!(ast, expected);
}

#[test]
fn test_parse_print_statement() {
    let tokens = vec![
        token_keyword("croak"),
        token_ident("x"),
        token_punct(";"),
        eof(),
    ];

    let mut parser = Parser::new(tokens);
    let ast = parser.parse().unwrap();

    let expected = vec![Statement::Print(Expression::Variable("x".to_string()))];

    assert_eq!(ast, expected);
}

#[test]
fn test_parse_expression_with_precedence() {
    // let x: number = 1 + 2 * 3;
    let tokens = vec![
        token_keyword("let"),
        token_ident("x"),
        token_punct(":"),
        token_type("number"),
        token_operator("="),
        token_number(1),
        token_operator("+"),
        token_number(2),
        token_operator("*"),
        token_number(3),
        token_punct(";"),
        eof(),
    ];

    let mut parser = Parser::new(tokens);
    let ast = parser.parse().unwrap();

    let expected_expr = Expression::BinaryOperation {
        left: Box::new(Expression::Number(1)),
        operator: "+".to_string(),
        right: Box::new(Expression::BinaryOperation {
            left: Box::new(Expression::Number(2)),
            operator: "*".to_string(),
            right: Box::new(Expression::Number(3)),
        }),
    };

    let expected = vec![Statement::Declaration(
        "x".to_string(),
        expected_expr,
        Some(Type::Number),
    )];

    assert_eq!(ast, expected);
}

#[test]
fn test_parse_grouped_expression() {
    // let x: number = (1 + 2) * 3;
    let tokens = vec![
        token_keyword("let"),
        token_ident("x"),
        token_punct(":"),
        token_type("number"),
        token_operator("="),
        token_punct("("),
        token_number(1),
        token_operator("+"),
        token_number(2),
        token_punct(")"),
        token_operator("*"),
        token_number(3),
        token_punct(";"),
        eof(),
    ];

    let mut parser = Parser::new(tokens);
    let ast = parser.parse().unwrap();

    let expected_expr = Expression::BinaryOperation {
        left: Box::new(Expression::BinaryOperation {
            left: Box::new(Expression::Number(1)),
            operator: "+".to_string(),
            right: Box::new(Expression::Number(2)),
        }),
        operator: "*".to_string(),
        right: Box::new(Expression::Number(3)),
    };

    let expected = vec![Statement::Declaration(
        "x".to_string(),
        expected_expr,
        Some(Type::Number),
    )];

    assert_eq!(ast, expected);
}

#[test]
fn empty_program() {
    assert_eq!(parse(""), Ok(vec![]));
    assert_eq!(Parser::new(vec![eof()]).parse(), Ok(vec![]));
}

#[test]
fn declaration_without_a_type() {
    assert_eq!(parse("let x = 1;"), Ok(vec![let_("x", num(1))]));
}

#[test]
fn declaration_of_a_boolean() {
    assert_eq!(
        parse("let b: bool = true;"),
        Ok(vec![Statement::Declaration(
            "b".to_string(),
            Expression::Bool(true),
            Some(Type::Boolean)
        )])
    );
}

#[test]
fn assignment_to_a_name() {
    assert_eq!(
        parse("y = 5;"),
        Ok(vec![Statement::Assignment("y".to_string(), num(5))])
    );
}

#[test]
fn call_as_a_statement() {
    assert_eq!(
        parse("f(); g(1, x);"),
        Ok(vec![
            Statement::Expression(call("f", vec![])),
            Statement::Expression(call("g", vec![num(1), name("x")])),
        ])
    );
}

#[test]
fn return_statement() {
    assert_eq!(
        parse("return x + 1;"),
        Ok(vec![Statement::Return(op(name("x"), "+", num(1)))])
    );
}

#[test]
fn while_statement() {
    assert_eq!(
        parse("while x < 3 { x = x + 1; }"),
        Ok(vec![Statement::While {
            condition: op(name("x"), "<", num(3)),
            body: vec![Statement::Assignment("x".to_string(), op(name("x"), "+", num(1)))],
        }])
    );
}

#[test]
fn block_statement() {
    assert_eq!(
        parse("{ let x = 1; { } }"),
        Ok(vec![Statement::Block(vec![let_("x", num(1)), Statement::Block(vec![])])])
    );
}

#[test]
fn if_without_else() {
    assert_eq!(
        parse("if a == b { croak 1; } croak 2;"),
        Ok(vec![
            Statement::If {
                condition: op(name("a"), "==", name("b")),
                then_block: vec![Statement::Print(num(1))],
                else_block: None,
            },
            Statement::Print(num(2)),
        ])
    );
}

#[test]
fn if_with_else() {
    assert_eq!(
        parse("if true { } else { croak 0; }"),
        Ok(vec![Statement::If {
            condition: Expression::Bool(true),
            then_block: vec![],
            else_block: Some(vec![Statement::Print(num(0))]),
        }])
    );
}

#[test]
fn function_with_parameters_and_result_type() {
    assert_eq!(
        parse("func add(a: number, b: bool): number { return a; }"),
        Ok(vec![Statement::FunctionDeclaration {
            name: "add".to_string(),
            params: vec![("a".to_string(), Type::Number), ("b".to_string(), Type::Boolean)],
            return_type: Type::Number,
            body: vec![Statement::Return(name("a"))],
        }])
    );
}

#[test]
fn function_without_result_type_is_void() {
    assert_eq!(
        parse("func hello() { croak 1; }"),
        Ok(vec![Statement::FunctionDeclaration {
            name: "hello".to_string(),
            params: vec![],
            return_type: Type::Void,
            body: vec![Statement::Print(num(1))],
        }])
    );
}

#[test]
fn function_returning_a_boolean() {
    assert_eq!(
        parse("func yes(): bool { return true; }"),
        Ok(vec![Statement::FunctionDeclaration {
            name: "yes".to_string(),
            params: vec![],
            return_type: Type::Boolean,
            body: vec![Statement::Return(Expression::Bool(true))],
        }])
    );
}

#[test]
fn a_comma_may_follow_the_last_parameter() {
    assert_eq!(
        parse("func f(a: number,) { }"),
        Ok(vec![Statement::FunctionDeclaration {
            name: "f".to_string(),
            params: vec![("a".to_string(), Type::Number)],
            return_type: Type::Void,
            body: vec![],
        }])
    );
}

#[test]
fn multiplication_binds_tighter_than_addition() {
    assert_eq!(
        expression_of("croak 1 + 2 * 3 - 4 / 5;"),
        op(
            op(num(1), "+", op(num(2), "*", num(3))),
            "-",
            op(num(4), "/", num(5))
        )
    );
}

#[test]
fn operators_of_one_level_group_to_the_left() {
    assert_eq!(
        expression_of("croak 8 - 4 - 2;"),
        op(op(num(8), "-", num(4)), "-", num(2))
    );
    assert_eq!(
        expression_of("croak 8 / 4 * 2;"),
        op(op(num(8), "/", num(4)), "*", num(2))
    );
}

#[test]
fn comparisons_bind_loosest_and_chain_to_the_left() {
    assert_eq!(
        expression_of("croak a + 1 < b * 2;"),
        op(op(name("a"), "+", num(1)), "<", op(name("b"), "*", num(2)))
    );
    assert_eq!(
        expression_of("croak a < b < c;"),
        op(op(name("a"), "<", name("b")), "<", name("c"))
    );
    assert_eq!(
        expression_of("croak a == b > c;"),
        op(op(name("a"), "==", name("b")), ">", name("c"))
    );
}

#[test]
fn parentheses_may_nest() {
    assert_eq!(expression_of("croak ((1));"), num(1));
    assert_eq!(
        expression_of("croak 2 * (3 + (4 - 1));"),
        op(num(2), "*", op(num(3), "+", op(num(4), "-", num(1))))
    );
}

#[test]
fn calls_inside_expressions() {
    assert_eq!(
        expression_of("croak n * fact(n - 1);"),
        op(name("n"), "*", call("fact", vec![op(name("n"), "-", num(1))]))
    );
    assert_eq!(
        expression_of("croak f(g(), h(1, 2));"),
        call("f", vec![call("g", vec![]), call("h", vec![num(1), num(2)])])
    );
}

#[test]
fn parsing_stops_at_the_end_marker() {
    let tokens = vec![
        token_keyword("croak"),
        token_number(1),
        token_punct(";"),
        eof(),
        token_keyword("croak"),
        token_number(2),
        token_punct(";"),
        eof(),
    ];
    let mut parser = Parser::new(tokens);
    assert_eq!(parser.parse(), Ok(vec![Statement::Print(num(1))]));
    assert_eq!(parser.parse(), Ok(vec![]));
}

#[test]
fn missing_semicolon() {
    assert_eq!(
        parse("let x = 1"),
        Err(failure(Expected::Semicolon, Some(eof()), 4))
    );
    assert_eq!(
        parse("croak 1 croak 2;"),
        Err(failure(Expected::Semicolon, Some(token_keyword("croak")), 2))
    );
}

#[test]
fn missing_name_after_let() {
    assert_eq!(
        parse("let 5 = 1;"),
        Err(failure(Expected::Identifier, Some(token_number(5)), 1))
    );
}

#[test]
fn missing_declarator() {
    assert_eq!(
        parse("let x 1;"),
        Err(failure(Expected::Declarator, Some(token_number(1)), 2))
    );
}

#[test]
fn missing_type_in_declaration() {
    assert_eq!(
        parse("let x: = 1;"),
        Err(failure(Expected::TypeName, Some(token_operator("=")), 3))
    );
}

#[test]
fn missing_equals_after_the_type() {
    assert_eq!(
        parse("let x: number 1;"),
        Err(failure(Expected::Assign, Some(token_number(1)), 4))
    );
    assert_eq!(
        parse("x + 1;"),
        Err(failure(Expected::Assign, Some(token_operator("+")), 1))
    );
}

#[test]
fn missing_expression() {
    assert_eq!(
        parse("croak ;"),
        Err(failure(Expected::Expression, Some(token_punct(";")), 1))
    );
    assert_eq!(
        parse("croak 1 + ;"),
        Err(failure(Expected::Expression, Some(token_punct(";")), 3))
    );
    assert_eq!(
        parse("let x = let;"),
        Err(failure(Expected::Expression, Some(token_keyword("let")), 3))
    );
}

#[test]
fn missing_closing_parenthesis() {
    assert_eq!(
        parse("croak (1 + 2;"),
        Err(failure(Expected::CloseParen, Some(token_punct(";")), 5))
    );
}

#[test]
fn bad_argument_list() {
    assert_eq!(
        parse("f(1 2);"),
        Err(failure(Expected::ArgumentEnd, Some(token_number(2)), 3))
    );
    assert_eq!(
        parse("f(1,);"),
        Err(failure(Expected::Expression, Some(token_punct(")")), 4))
    );
}

#[test]
fn missing_braces() {
    assert_eq!(
        parse("while true croak 1;"),
        Err(failure(Expected::OpenBrace, Some(token_keyword("croak")), 2))
    );
    assert_eq!(
        parse("if true { } else croak 1;"),
        Err(failure(Expected::OpenBrace, Some(token_keyword("croak")), 5))
    );
}

#[test]
fn block_that_is_never_closed() {
    assert_eq!(
        parse("{ croak 1;"),
        Err(failure(Expected::CloseBrace, Some(eof()), 4))
    );
    assert_eq!(
        parse("while true { "),
        Err(failure(Expected::CloseBrace, Some(eof()), 3))
    );
}

#[test]
fn bad_function_heads() {
    assert_eq!(
        parse("func (a: number) { }"),
        Err(failure(Expected::Identifier, Some(token_punct("(")), 1))
    );
    assert_eq!(
        parse("func f a: number) { }"),
        Err(failure(Expected::OpenParen, Some(token_ident("a")), 2))
    );
    assert_eq!(
        parse("func f(a number) { }"),
        Err(failure(Expected::Colon, Some(token_type("number")), 4))
    );
    assert_eq!(
        parse("func f(a: 1) { }"),
        Err(failure(Expected::TypeName, Some(token_number(1)), 5))
    );
    assert_eq!(
        parse("func f(a: number b: number) { }"),
        Err(failure(Expected::CloseParen, Some(token_ident("b")), 6))
    );
    assert_eq!(
        parse("func f() = { }"),
        Err(failure(Expected::ReturnType, Some(token_operator("=")), 4))
    );
    assert_eq!(
        parse("func f(): { }"),
        Err(failure(Expected::TypeName, Some(token_punct("{")), 5))
    );
}

#[test]
fn tokens_that_start_no_statement() {
    assert_eq!(
        parse("1 + 2;"),
        Err(failure(Expected::Statement, Some(token_number(1)), 0))
    );
    assert_eq!(
        parse("}"),
        Err(failure(Expected::Statement, Some(token_punct("}")), 0))
    );
    assert_eq!(
        parse("else { }"),
        Err(failure(Expected::Statement, Some(token_keyword("else")), 0))
    );
    assert_eq!(
        parse("croak 1; number"),
        Err(failure(Expected::Statement, Some(token_type("number")), 3))
    );
}

#[test]
fn tokens_that_run_out_without_an_end_marker() {
    assert_eq!(
        Parser::new(vec![]).parse(),
        Err(failure(Expected::Statement, None, 0))
    );
    assert_eq!(
        Parser::new(vec![token_keyword("croak"), token_number(1)]).parse(),
        Err(failure(Expected::Semicolon, None, 2))
    );
    assert_eq!(
        Parser::new(vec![token_keyword("croak"), token_number(1), token_punct(";")]).parse(),
        Err(failure(Expected::Statement, None, 3))
    );
    assert_eq!(
        Parser::new(vec![token_punct("{")]).parse(),
        Err(failure(Expected::CloseBrace, None, 1))
    );
}

#[test]
fn after_a_failure_the_parser_stands_at_the_offending_token() {
    // croak 1; croak 2 + ; croak 3;
    let tokens = Lexer::new("croak 1; croak 2 + ; croak 3;").parse().unwrap();
    let mut parser = Parser::new(tokens);
    assert_eq!(
        parser.parse(),
        Err(failure(Expected::Expression, Some(token_punct(";")), 6))
    );
    // The semicolon starts no statement either.
    assert_eq!(
        parser.parse(),
        Err(failure(Expected::Statement, Some(token_punct(";")), 6))
    );
}

#[test]
fn only_the_first_error_is_reported() {
    assert_eq!(
        parse("let = 1; let = 2;"),
        Err(failure(Expected::Identifier, Some(token_operator("=")), 1))
    );
}
