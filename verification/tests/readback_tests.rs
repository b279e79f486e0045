use froggle::lexer::Token;
use froggle::parser::{Expression, Parser, Statement, Type};

fn mark(text: &str) -> Token {
    Token::Punctuation(text.to_string())
}

fn keyword(text: &str) -> Token {
    Token::Keyword(text.to_string())
}

fn rank(e: &Expression) -> u8 {
    match e {
        Expression::BinaryOperation { operator, .. } => match operator.as_str() {
            "*" | "/" => 2,
            "+" | "-" => 1,
            _ => 0,
        },
        _ => 3,
    }
}

/// Writes `e` where an expression of rank `least` or more is read.
fn write_expression(e: &Expression, least: u8, out: &mut Vec<Token>) {
    if rank(e) < least {
        out.push(mark("("));
        write_plain(e, out);
        out.push(mark(")"));
    } else {
        write_plain(e, out);
    }
}

fn write_plain(e: &Expression, out: &mut Vec<Token>) {
    match e {
        Expression::Number(n) => out.push(Token::Number(*n)),
        Expression::Bool(b) => out.push(Token::Bool(*b)),
        Expression::Variable(name) => out.push(Token::Identifier(name.clone())),
        Expression::BinaryOperation { left, operator, right } => {
            write_expression(left, rank(e), out);
            out.push(Token::Operator(operator.clone()));
            write_expression(right, rank(e) + 1, out);
        }
        Expression::FunctionCall { name, arguments } => {
            out.push(Token::Identifier(name.clone()));
            out.push(mark("("));
            for (i, argument) in arguments.iter().enumerate() {
                if i > 0 {
                    out.push(mark(","));
                }
                write_expression(argument, 0, out);
            }
            out.push(mark(")"));
        }
    }
}

fn type_token(named: &Type) -> Token {
    match named {
        Type::Number => Token::Type("number".to_string()),
        _ => Token::Type("bool".to_string()),
    }
}

fn write_block(body: &[Statement], out: &mut Vec<Token>) {
    out.push(mark("{"));
    for statement in body {
        write_statement(statement, out);
    }
    out.push(mark("}"));
}

fn write_statement(s: &Statement, out: &mut Vec<Token>) {
    match s {
        Statement::Declaration(name, value, declared) => {
            out.push(keyword("let"));
            out.push(Token::Identifier(name.clone()));
            if let Some(named) = declared {
                out.push(mark(":"));
                out.push(type_token(named));
            }
            out.push(Token::Operator("=".to_string()));
            write_expression(value, 0, out);
            out.push(mark(";"));
        }
        Statement::Assignment(name, value) => {
            out.push(Token::Identifier(name.clone()));
            out.push(Token::Operator("=".to_string()));
            write_expression(value, 0, out);
            out.push(mark(";"));
        }
        Statement::Print(value) => {
            out.push(keyword("croak"));
            write_expression(value, 0, out);
            out.push(mark(";"));
        }
        Statement::Return(value) => {
            out.push(keyword("return"));
            write_expression(value, 0, out);
            out.push(mark(";"));
        }
        Statement::Expression(value) => {
            write_expression(value, 0, out);
            out.push(mark(";"));
        }
        Statement::While { condition, body } => {
            out.push(keyword("while"));
            write_expression(condition, 0, out);
            write_block(body, out);
        }
        Statement::Block(body) => write_block(body, out),
        Statement::If { condition, then_block, else_block } => {
            out.push(keyword("if"));
            write_expression(condition, 0, out);
            write_block(then_block, out);
            if let Some(block) = else_block {
                out.push(keyword("else"));
                write_block(block, out);
            }
        }
        Statement::FunctionDeclaration { name, params, return_type, body } => {
            out.push(keyword("func"));
            out.push(Token::Identifier(name.clone()));
            out.push(mark("("));
            for (i, (param, param_type)) in params.iter().enumerate() {
                if i > 0 {
                    out.push(mark(","));
                }
                out.push(Token::Identifier(param.clone()));
                out.push(mark(":"));
                out.push(type_token(param_type));
            }
            out.push(mark(")"));
            if *return_type != Type::Void {
                out.push(mark(":"));
                out.push(type_token(return_type));
            }
            write_block(body, out);
        }
    }
}

fn write_program(program: &[Statement]) -> Vec<Token> {
    let mut out = Vec::new();
    for statement in program {
        write_statement(statement, &mut out);
    }
    out.push(Token::EOF);
    out
}

fn num(n: i32) -> Expression {
    Expression::Number(n)
}

fn var(name: &str) -> Expression {
    Expression::Variable(name.to_string())
}

fn bin(left: Expression, operator: &str, right: Expression) -> Expression {
    Expression::BinaryOperation {
        left: Box::new(left),
        operator: operator.to_string(),
        right: Box::new(right),
    }
}

fn call(name: &str, arguments: Vec<Expression>) -> Expression {
    Expression::FunctionCall { name: name.to_string(), arguments }
}

/// The expression comes back from the tokens written for it.
fn comes_back(e: Expression) {
    let program = vec![Statement::Print(e)];
    let mut parser = Parser::new(write_program(&program));
    assert_eq!(parser.parse(), Ok(program));
}

#[test]
fn written_tokens_of_a_grouped_product() {
    let e = bin(bin(num(1), "+", num(2)), "*", num(3));
    let mut out = Vec::new();
    write_expression(&e, 0, &mut out);
    assert_eq!(
        out,
        vec![
            mark("("),
            Token::Number(1),
            Token::Operator("+".to_string()),
            Token::Number(2),
            mark(")"),
            Token::Operator("*".to_string()),
            Token::Number(3),
        ]
    );
}

#[test]
fn expressions_that_need_no_parentheses_come_back() {
    comes_back(num(7));
    comes_back(Expression::Bool(false));
    comes_back(var("x"));
    comes_back(bin(num(1), "+", bin(num(2), "*", num(3))));
    comes_back(bin(bin(num(8), "-", num(2)), "-", num(1)));
    comes_back(bin(bin(num(8), "/", num(2)), "*", num(3)));
    comes_back(bin(bin(var("a"), "+", num(1)), "<", bin(var("b"), "*", num(2))));
    comes_back(bin(bin(var("a"), "<", var("b")), "==", var("c")));
}

#[test]
fn expressions_that_need_parentheses_come_back() {
    comes_back(bin(bin(num(1), "+", num(2)), "*", num(3)));
    comes_back(bin(num(8), "-", bin(num(2), "-", num(1))));
    comes_back(bin(num(8), "/", bin(num(4), "/", num(2))));
    comes_back(bin(num(2), "*", bin(num(3), "+", num(4))));
    comes_back(bin(var("a"), "==", bin(var("b"), "<", var("c"))));
    comes_back(bin(bin(var("a"), ">", var("b")), "+", num(1)));
    comes_back(bin(
        bin(bin(num(1), "<", num(2)), "*", bin(num(3), "-", num(4))),
        "/",
        bin(bin(num(5), "==", num(6)), "+", num(7)),
    ));
}

#[test]
fn calls_come_back() {
    comes_back(call("f", vec![]));
    comes_back(call("f", vec![num(1)]));
    comes_back(call("f", vec![bin(num(1), "<", num(2)), var("x"), call("g", vec![var("y")])]));
    comes_back(bin(call("f", vec![num(1)]), "*", bin(call("g", vec![]), "+", num(2))));
}

#[test]
fn statements_of_every_kind_come_back() {
    let program = vec![
        Statement::Declaration("x".to_string(), num(1), None),
        Statement::Declaration("y".to_string(), Expression::Bool(true), Some(Type::Boolean)),
        Statement::Declaration("z".to_string(), bin(num(1), "+", num(2)), Some(Type::Number)),
        Statement::Assignment("x".to_string(), bin(var("x"), "*", bin(var("z"), "-", num(1)))),
        Statement::Expression(call("f", vec![var("x"), num(2)])),
        Statement::Print(var("x")),
        Statement::Return(num(0)),
        Statement::Block(vec![]),
        Statement::Block(vec![Statement::Print(num(1)), Statement::Block(vec![])]),
        Statement::While {
            condition: bin(var("x"), "<", num(3)),
            body: vec![Statement::Assignment("x".to_string(), bin(var("x"), "+", num(1)))],
        },
        Statement::If {
            condition: var("y"),
            then_block: vec![Statement::Print(num(1))],
            else_block: None,
        },
        Statement::If {
            condition: bin(var("x"), "==", num(3)),
            then_block: vec![],
            else_block: Some(vec![Statement::If {
                condition: var("y"),
                then_block: vec![Statement::Return(num(1))],
                else_block: Some(vec![]),
            }]),
        },
        Statement::FunctionDeclaration {
            name: "f".to_string(),
            params: vec![],
            return_type: Type::Void,
            body: vec![],
        },
        Statement::FunctionDeclaration {
            name: "g".to_string(),
            params: vec![("a".to_string(), Type::Number), ("b".to_string(), Type::Boolean)],
            return_type: Type::Boolean,
            body: vec![Statement::Return(var("b"))],
        },
        Statement::FunctionDeclaration {
            name: "h".to_string(),
            params: vec![("n".to_string(), Type::Number)],
            return_type: Type::Number,
            body: vec![
                Statement::If {
                    condition: bin(var("n"), "<", num(2)),
                    then_block: vec![Statement::Return(num(1))],
                    else_block: None,
                },
                Statement::Return(bin(
                    var("n"),
                    "*",
                    call("h", vec![bin(var("n"), "-", num(1))]),
                )),
            ],
        },
    ];
    let mut parser = Parser::new(write_program(&program));
    assert_eq!(parser.parse(), Ok(program));
}

#[test]
fn the_empty_program_comes_back() {
    let mut parser = Parser::new(write_program(&[]));
    assert_eq!(parser.parse(), Ok(vec![]));
}
