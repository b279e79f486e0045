//! The abstract syntax tree and the parser that builds it from tokens.

use vstd::prelude::*;
use crate::grammar::{
    addition, addition_rest, arguments, arguments_rest, block, braced, call_or_assignment,
    comparison_rest, declaration, expect, expression, factor, failure, function_declaration,
    function_head, if_statement, is_keyword, is_operator, is_punctuation, name_at, parameters,
    program, remaining, start_of, statement, term, term_rest, terminated, token_at, type_at,
    while_statement, Expected, ParseErrorModel, Parsed, Start,
};
use crate::lexer::{token_models, Token, TokenModel};
use crate::syntax::{ExprModel, StmtModel};
use crate::text::same_text;

verus! {

/// The static types of the language. `Void` is the result type of a
/// function that returns nothing.
#[derive(Debug, PartialEq, Eq, Clone, Copy, Structural)]
pub enum Type {
    Number,
    Boolean,
    Void,
}

/// An expression. The operator of a binary operation is kept as it was
/// written.
#[derive(Debug, PartialEq)]
pub enum Expression {
    Number(i32),
    Bool(bool),
    Variable(String),
    BinaryOperation { left: Box<Expression>, operator: String, right: Box<Expression> },
    FunctionCall { name: String, arguments: Vec<Expression> },
}

/// A statement.
#[derive(Debug, PartialEq)]
pub enum Statement {
    /// `let` name `=` value, with the type if one was written.
    Declaration(String, Expression, Option<Type>),
    /// name `=` value.
    Assignment(String, Expression),
    /// `croak` value.
    Print(Expression),
    While { condition: Expression, body: Vec<Statement> },
    Block(Vec<Statement>),
    FunctionDeclaration {
        name: String,
        params: Vec<(String, Type)>,
        return_type: Type,
        body: Vec<Statement>,
    },
    If { condition: Expression, then_block: Vec<Statement>, else_block: Option<Vec<Statement>> },
    /// A call whose result is dropped.
    Expression(Expression),
    Return(Expression),
}

/// The models of a run of expressions.
pub open spec fn expression_models(expressions: Seq<Expression>) -> Seq<ExprModel>
    decreases expressions,
{
    Seq::new(
        expressions.len(),
        |i: int|
            if 0 <= i < expressions.len() {
                expressions[i].model()
            } else {
                arbitrary()
            },
    )
}

/// The models of a run of statements.
pub open spec fn statement_models(statements: Seq<Statement>) -> Seq<StmtModel>
    decreases statements,
{
    Seq::new(
        statements.len(),
        |i: int|
            if 0 <= i < statements.len() {
                statements[i].model()
            } else {
                arbitrary()
            },
    )
}

/// The models of a parameter list.
pub open spec fn parameter_models(params: Seq<(String, Type)>) -> Seq<(Seq<char>, Type)> {
    params.map_values(|p: (String, Type)| (p.0@, p.1))
}

impl Expression {
    pub open spec fn model(&self) -> ExprModel
        decreases self,
    {
        match self {
            Expression::Number(n) => ExprModel::Number(*n),
            Expression::Bool(b) => ExprModel::Bool(*b),
            Expression::Variable(name) => ExprModel::Variable(name@),
            Expression::BinaryOperation { left, operator, right } => ExprModel::Binary {
                left: Box::new(left.model()),
                operator: operator@,
                right: Box::new(right.model()),
            },
            Expression::FunctionCall { name, arguments } => ExprModel::Call {
                name: name@,
                arguments: expression_models(arguments@),
            },
        }
    }

    fn duplicate(&self) -> (copy: Expression)
        ensures
            copy@ == self@,
        decreases self,
    {
        match self {
            Expression::Number(n) => Expression::Number(*n),
            Expression::Bool(b) => Expression::Bool(*b),
            Expression::Variable(name) => Expression::Variable(name.clone()),
            Expression::BinaryOperation { left, operator, right } => Expression::BinaryOperation {
                left: Box::new(left.duplicate()),
                operator: operator.clone(),
                right: Box::new(right.duplicate()),
            },
            Expression::FunctionCall { name, arguments } => {
                let mut copies: Vec<Expression> = Vec::new();
                let mut i: usize = 0;
                while i < arguments.len()
                    invariant
                        i <= arguments.len(),
                        copies.len() == i,
                        forall|k: int| 0 <= k < i ==> copies@[k]@ == arguments@[k]@,
                        self is FunctionCall,
                        self->arguments == arguments,
                    decreases arguments.len() - i,
                {
                    copies.push(arguments[i].duplicate());
                    i += 1;
                }
                assert(expression_models(copies@) =~= expression_models(arguments@));
                Expression::FunctionCall { name: name.clone(), arguments: copies }
            },
        }
    }
}

impl View for Expression {
    type V = ExprModel;

    open spec fn view(&self) -> ExprModel {
        self.model()
    }
}

impl Clone for Expression {
    fn clone(&self) -> (copy: Expression)
        ensures
            copy@ == self@,
    {
        self.duplicate()
    }
}

/// A copy of a run of statements.
pub fn clone_statements(statements: &Vec<Statement>) -> (copies: Vec<Statement>)
    ensures
        statement_models(copies@) == statement_models(statements@),
    decreases statements,
{
    let mut copies: Vec<Statement> = Vec::new();
    let mut i: usize = 0;
    while i < statements.len()
        invariant
            i <= statements.len(),
            copies.len() == i,
            forall|k: int| 0 <= k < i ==> copies@[k]@ == statements@[k]@,
        decreases statements.len() - i,
    {
        copies.push(statements[i].duplicate());
        i += 1;
    }
    assert(statement_models(copies@) =~= statement_models(statements@));
    copies
}

/// A copy of a parameter list.
pub fn clone_parameters(params: &Vec<(String, Type)>) -> (copies: Vec<(String, Type)>)
    ensures
        parameter_models(copies@) == parameter_models(params@),
{
    let mut copies: Vec<(String, Type)> = Vec::new();
    let mut i: usize = 0;
    while i < params.len()
        invariant
            i <= params.len(),
            copies.len() == i,
            forall|k: int| 0 <= k < i ==> copies@[k] == params@[k],
        decreases params.len() - i,
    {
        copies.push((params[i].0.clone(), params[i].1));
        i += 1;
    }
    assert(parameter_models(copies@) =~= parameter_models(params@));
    copies
}

impl Statement {
    pub open spec fn model(&self) -> StmtModel
        decreases self,
    {
        match self {
            Statement::Declaration(name, value, declared) => StmtModel::Declaration {
                name: name@,
                value: value@,
                declared: *declared,
            },
            Statement::Assignment(name, value) => StmtModel::Assignment {
                name: name@,
                value: value@,
            },
            Statement::Print(value) => StmtModel::Print(value@),
            Statement::While { condition, body } => StmtModel::While {
                condition: condition@,
                body: statement_models(body@),
            },
            Statement::Block(body) => StmtModel::Block(statement_models(body@)),
            Statement::FunctionDeclaration { name, params, return_type, body } => {
                StmtModel::FunctionDeclaration {
                    name: name@,
                    params: parameter_models(params@),
                    return_type: *return_type,
                    body: statement_models(body@),
                }
            },
            Statement::If { condition, then_block, else_block } => StmtModel::If {
                condition: condition@,
                then_block: statement_models(then_block@),
                else_block: match else_block {
                    Some(block) => Some(statement_models(block@)),
                    None => None,
                },
            },
            Statement::Expression(value) => StmtModel::Expression(value@),
            Statement::Return(value) => StmtModel::Return(value@),
        }
    }

    fn duplicate(&self) -> (copy: Statement)
        ensures
            copy@ == self@,
        decreases self,
    {
        match self {
            Statement::Declaration(name, value, declared) => Statement::Declaration(
                name.clone(),
                value.clone(),
                *declared,
            ),
            Statement::Assignment(name, value) => Statement::Assignment(
                name.clone(),
                value.clone(),
            ),
            Statement::Print(value) => Statement::Print(value.clone()),
            Statement::While { condition, body } => Statement::While {
                condition: condition.clone(),
                body: clone_statements(body),
            },
            Statement::Block(body) => Statement::Block(clone_statements(body)),
            Statement::FunctionDeclaration { name, params, return_type, body } => {
                Statement::FunctionDeclaration {
                    name: name.clone(),
                    params: clone_parameters(params),
                    return_type: *return_type,
                    body: clone_statements(body),
                }
            },
            Statement::If { condition, then_block, else_block } => Statement::If {
                condition: condition.clone(),
                then_block: clone_statements(then_block),
                else_block: match else_block {
                    Some(block) => Some(clone_statements(block)),
                    None => None,
                },
            },
            Statement::Expression(value) => Statement::Expression(value.clone()),
            Statement::Return(value) => Statement::Return(value.clone()),
        }
    }
}

impl View for Statement {
    type V = StmtModel;

    open spec fn view(&self) -> StmtModel {
        self.model()
    }
}

impl Clone for Statement {
    fn clone(&self) -> (copy: Statement)
        ensures
            copy@ == self@,
    {
        self.duplicate()
    }
}

/// A failure of the parser: what it needed, the token it found instead
/// (none where the tokens ran out) and the index of that token.
#[derive(Debug, PartialEq)]
pub struct ParseError {
    pub expected: Expected,
    pub found: Option<Token>,
    pub position: usize,
}

impl View for ParseError {
    type V = ParseErrorModel;

    open spec fn view(&self) -> ParseErrorModel {
        ParseErrorModel {
            expected: self.expected,
            found: match self.found {
                Some(token) => Some(token@),
                None => None,
            },
            position: self.position as int,
        }
    }
}

/// What the grammar says is read, `want`, against what a parsing function
/// returned, `got`, and where it stopped, `end`: after what was read, or at
/// the token that it could not take.
pub open spec fn reads<T>(want: Parsed<T>, got: Result<T, ParseErrorModel>, end: int) -> bool {
    match want {
        Ok((value, next)) => got == Ok::<T, ParseErrorModel>(value) && end == next,
        Err(e) => got == Err::<T, ParseErrorModel>(e) && end == e.position,
    }
}

pub open spec fn plain_read<T>(r: Result<T, ParseError>) -> Result<T, ParseErrorModel> {
    match r {
        Ok(value) => Ok(value),
        Err(e) => Err(e@),
    }
}

pub open spec fn expression_read(r: Result<Expression, ParseError>) -> Result<
    ExprModel,
    ParseErrorModel,
> {
    match r {
        Ok(value) => Ok(value@),
        Err(e) => Err(e@),
    }
}

pub open spec fn expressions_read(r: Result<Vec<Expression>, ParseError>) -> Result<
    Seq<ExprModel>,
    ParseErrorModel,
> {
    match r {
        Ok(values) => Ok(expression_models(values@)),
        Err(e) => Err(e@),
    }
}

pub open spec fn statement_read(r: Result<Statement, ParseError>) -> Result<
    StmtModel,
    ParseErrorModel,
> {
    match r {
        Ok(value) => Ok(value@),
        Err(e) => Err(e@),
    }
}

pub open spec fn optional_statement_read(r: Result<Option<Statement>, ParseError>) -> Result<
    Option<StmtModel>,
    ParseErrorModel,
> {
    match r {
        Ok(Some(value)) => Ok(Some(value@)),
        Ok(None) => Ok(None),
        Err(e) => Err(e@),
    }
}

pub open spec fn statements_read(r: Result<Vec<Statement>, ParseError>) -> Result<
    Seq<StmtModel>,
    ParseErrorModel,
> {
    match r {
        Ok(values) => Ok(statement_models(values@)),
        Err(e) => Err(e@),
    }
}

pub open spec fn name_read(r: Result<String, ParseError>) -> Result<Seq<char>, ParseErrorModel> {
    match r {
        Ok(name) => Ok(name@),
        Err(e) => Err(e@),
    }
}

pub open spec fn parameters_read(r: Result<Vec<(String, Type)>, ParseError>) -> Result<
    Seq<(Seq<char>, Type)>,
    ParseErrorModel,
> {
    match r {
        Ok(params) => Ok(parameter_models(params@)),
        Err(e) => Err(e@),
    }
}

pub open spec fn head_read(r: Result<(String, Vec<(String, Type)>, Type), ParseError>) -> Result<
    (Seq<char>, Seq<(Seq<char>, Type)>, Type),
    ParseErrorModel,
> {
    match r {
        Ok((name, params, result)) => Ok((name@, parameter_models(params@), result)),
        Err(e) => Err(e@),
    }
}

/// The start of a statement, with the name as a sequence of characters.
pub open spec fn start_model(kind: Start<String>) -> Start<Seq<char>> {
    match kind {
        Start::End => Start::End,
        Start::Name(name) => Start::Name(name@),
        Start::Block => Start::Block,
        Start::Declaration => Start::Declaration,
        Start::Print => Start::Print,
        Start::Return => Start::Return,
        Start::While => Start::While,
        Start::If => Start::If,
        Start::Function => Start::Function,
        Start::Nothing => Start::Nothing,
    }
}

/// A statement that was parsed, as what `parse_statement` returns.
fn wrap(r: Result<Statement, ParseError>) -> (wrapped: Result<Option<Statement>, ParseError>)
    ensures
        optional_statement_read(wrapped) == match statement_read(r) {
            Ok(s) => Ok::<Option<StmtModel>, ParseErrorModel>(Some(s)),
            Err(e) => Err(e),
        },
        wrapped matches Ok(Some(_)) <==> r is Ok,
        !(wrapped matches Ok(None)),
{
    match r {
        Ok(s) => Ok(Some(s)),
        Err(e) => Err(e),
    }
}

/// A recursive-descent parser over a run of tokens.
pub struct Parser {
    tokens: Vec<Token>,
    current: usize,
}

impl Parser {
    /// The tokens that the parser reads.
    pub closed spec fn tokens(&self) -> Seq<TokenModel> {
        token_models(self.tokens@)
    }

    /// The index of the next token to read.
    pub closed spec fn position(&self) -> int {
        self.current as int
    }

    /// A parser at the first of `tokens`.
    pub fn new(tokens: Vec<Token>) -> (parser: Parser)
        ensures
            parser.tokens() == token_models(tokens@),
            parser.position() == 0,
    {
        Parser { tokens, current: 0 }
    }

    fn peek(&self) -> (token: Option<&Token>)
        ensures
            match token {
                Some(t) => token_at(self.tokens(), self.position()) == Some(t@),
                None => token_at(self.tokens(), self.position()) is None,
            },
    {
        if self.current < self.tokens.len() {
            return Some(&self.tokens[self.current]);
        }
        None
    }

    /// Steps over the token that `peek` showed.
    fn advance(&mut self)
        requires
            token_at(old(self).tokens(), old(self).position()) is Some,
        ensures
            final(self).tokens() == old(self).tokens(),
            final(self).position() == old(self).position() + 1,
    {
        if self.current < self.tokens.len() {
            self.current += 1;
        }
    }

    fn at_punctuation(&self, text: &str) -> (found: bool)
        ensures
            found == is_punctuation(self.tokens(), self.position(), text@),
    {
        match self.peek() {
            Some(token) => match token {
                Token::Punctuation(p) => same_text(p.as_str(), text),
                _ => false,
            },
            None => false,
        }
    }

    fn at_operator(&self, text: &str) -> (found: bool)
        ensures
            found == is_operator(self.tokens(), self.position(), text@),
    {
        match self.peek() {
            Some(token) => match token {
                Token::Operator(op) => same_text(op.as_str(), text),
                _ => false,
            },
            None => false,
        }
    }

    fn at_keyword(&self, text: &str) -> (found: bool)
        ensures
            found == is_keyword(self.tokens(), self.position(), text@),
    {
        match self.peek() {
            Some(token) => match token {
                Token::Keyword(k) => same_text(k.as_str(), text),
                _ => false,
            },
            None => false,
        }
    }

    /// The operator at the current position, if there is one.
    fn peek_operator(&self) -> (operator: Option<String>)
        ensures
            match operator {
                Some(op) => token_at(self.tokens(), self.position()) == Some(
                    TokenModel::Operator(op@),
                ),
                None => !(token_at(self.tokens(), self.position()) matches Some(
                    TokenModel::Operator(_),
                )),
            },
    {
        match self.peek() {
            Some(token) => match token {
                Token::Operator(op) => Some(op.clone()),
                _ => None,
            },
            None => None,
        }
    }

    /// The failure to find `expected` at the current position.
    fn fail(&self, expected: Expected) -> (error: ParseError)
        ensures
            error@ == failure(self.tokens(), self.position(), expected),
    {
        let found = match self.peek() {
            Some(token) => Some(token.clone()),
            None => None,
        };
        ParseError { expected, found, position: self.current }
    }

    fn expect(&mut self, expected: Expected) -> (r: Result<(), ParseError>)
        ensures
            final(self).tokens() == old(self).tokens(),
            match expect(old(self).tokens(), old(self).position(), expected) {
                Ok(next) => r is Ok && final(self).position() == next,
                Err(e) => r is Err && r->Err_0@ == e && final(self).position() == e.position,
            },
    {
        let found = match expected {
            Expected::Assign => self.at_operator("="),
            Expected::Semicolon => self.at_punctuation(";"),
            Expected::OpenBrace => self.at_punctuation("{"),
            Expected::CloseBrace => self.at_punctuation("}"),
            Expected::OpenParen => self.at_punctuation("("),
            Expected::CloseParen => self.at_punctuation(")"),
            Expected::Colon => self.at_punctuation(":"),
            _ => false,
        };
        if found {
            self.advance();
            return Ok(());
        }
        Err(self.fail(expected))
    }

    fn expect_type(&mut self) -> (r: Result<Type, ParseError>)
        ensures
            final(self).tokens() == old(self).tokens(),
            plain_read(r) == type_at(old(self).tokens(), old(self).position()),
            r is Ok ==> final(self).position() == old(self).position() + 1,
            r is Err ==> final(self).position() == old(self).position(),
    {
        let found = match self.peek() {
            Some(token) => match token {
                Token::Type(t) => {
                    if same_text(t.as_str(), "bool") {
                        Some(Type::Boolean)
                    } else if same_text(t.as_str(), "number") {
                        Some(Type::Number)
                    } else {
                        None
                    }
                },
                _ => None,
            },
            None => None,
        };
        match found {
            Some(t) => {
                self.advance();
                Ok(t)
            },
            None => Err(self.fail(Expected::TypeName)),
        }
    }

    fn expect_name(&mut self) -> (r: Result<String, ParseError>)
        ensures
            final(self).tokens() == old(self).tokens(),
            name_read(r) == name_at(old(self).tokens(), old(self).position()),
            r is Ok ==> final(self).position() == old(self).position() + 1,
            r is Err ==> final(self).position() == old(self).position(),
    {
        let found = match self.peek() {
            Some(token) => match token {
                Token::Identifier(name) => Some(name.clone()),
                _ => None,
            },
            None => None,
        };
        match found {
            Some(name) => {
                self.advance();
                Ok(name)
            },
            None => Err(self.fail(Expected::Identifier)),
        }
    }

    /// Parses the statements of a program, up to the end marker.
    pub fn parse(&mut self) -> (r: Result<Vec<Statement>, ParseError>)
        ensures
            final(self).tokens() == old(self).tokens(),
            reads(
                program(old(self).tokens(), old(self).position(), Seq::empty()),
                statements_read(r),
                final(self).position(),
            ),
    {
        let mut statements: Vec<Statement> = Vec::new();
        assert(statement_models(statements@) =~= Seq::<StmtModel>::empty());
        loop
            invariant
                self.tokens() == old(self).tokens(),
                program(old(self).tokens(), old(self).position(), Seq::empty()) == program(
                    self.tokens(),
                    self.position(),
                    statement_models(statements@),
                ),
            decreases remaining(self.tokens(), self.position()),
        {
            let ghost read = statement_models(statements@);
            match self.parse_statement() {
                Err(e) => {
                    return Err(e);
                },
                Ok(None) => {
                    return Ok(statements);
                },
                Ok(Some(s)) => {
                    statements.push(s);
                    assert(statement_models(statements@) =~= read.push(s@));
                },
            }
        }
    }

    /// Parses a loop, from its keyword.
    fn parse_while(&mut self) -> (r: Result<Statement, ParseError>)
        requires
            is_keyword(old(self).tokens(), old(self).position(), "while"@),
        ensures
            final(self).tokens() == old(self).tokens(),
            reads(
                while_statement(old(self).tokens(), old(self).position()),
                statement_read(r),
                final(self).position(),
            ),
            r is Ok ==> final(self).position() > old(self).position(),
        decreases remaining(old(self).tokens(), old(self).position()), 5int,
    {
        self.advance();
        let condition = match self.parse_expression() {
            Ok(e) => e,
            Err(e) => {
                return Err(e);
            },
        };
        match self.parse_braced() {
            Ok(body) => Ok(Statement::While { condition, body }),
            Err(e) => Err(e),
        }
    }

    /// Parses a conditional, from its keyword.
    fn parse_if(&mut self) -> (r: Result<Statement, ParseError>)
        requires
            is_keyword(old(self).tokens(), old(self).position(), "if"@),
        ensures
            final(self).tokens() == old(self).tokens(),
            reads(
                if_statement(old(self).tokens(), old(self).position()),
                statement_read(r),
                final(self).position(),
            ),
            r is Ok ==> final(self).position() > old(self).position(),
        decreases remaining(old(self).tokens(), old(self).position()), 6int,
    {
        self.advance();
        let condition = match self.parse_expression() {
            Ok(e) => e,
            Err(e) => {
                return Err(e);
            },
        };
        let then_block = match self.parse_braced() {
            Ok(b) => b,
            Err(e) => {
                return Err(e);
            },
        };
        if !self.at_keyword("else") {
            return Ok(Statement::If { condition, then_block, else_block: None });
        }
        self.advance();
        match self.parse_braced() {
            Ok(else_block) => Ok(
                Statement::If { condition, then_block, else_block: Some(else_block) },
            ),
            Err(e) => Err(e),
        }
    }

    /// Parses a function declaration, from its keyword.
    fn parse_function(&mut self) -> (r: Result<Statement, ParseError>)
        requires
            is_keyword(old(self).tokens(), old(self).position(), "func"@),
        ensures
            final(self).tokens() == old(self).tokens(),
            reads(
                function_declaration(old(self).tokens(), old(self).position()),
                statement_read(r),
                final(self).position(),
            ),
            r is Ok ==> final(self).position() > old(self).position(),
        decreases remaining(old(self).tokens(), old(self).position()), 7int,
    {
        self.advance();
        let (name, params, return_type) = match self.parse_function_head() {
            Ok(head) => head,
            Err(e) => {
                return Err(e);
            },
        };
        match self.parse_braced() {
            Ok(body) => Ok(Statement::FunctionDeclaration { name, params, return_type, body }),
            Err(e) => Err(e),
        }
    }

    /// What the token at the current position says of the statement that
    /// starts there.
    fn start(&self) -> (kind: Start<String>)
        ensures
            start_model(kind) == start_of(token_at(self.tokens(), self.position())),
            kind is While ==> is_keyword(self.tokens(), self.position(), "while"@),
            kind is If ==> is_keyword(self.tokens(), self.position(), "if"@),
            kind is Function ==> is_keyword(self.tokens(), self.position(), "func"@),
            !(kind is Nothing) ==> self.position() < self.tokens().len(),
    {
        match self.peek() {
            Some(token) => match token {
                Token::EOF => Start::End,
                Token::Identifier(name) => Start::Name(name.clone()),
                Token::Punctuation(p) => {
                    if same_text(p.as_str(), "{") {
                        Start::Block
                    } else {
                        Start::Nothing
                    }
                },
                Token::Keyword(k) => {
                    if same_text(k.as_str(), "let") {
                        Start::Declaration
                    } else if same_text(k.as_str(), "croak") {
                        Start::Print
                    } else if same_text(k.as_str(), "return") {
                        Start::Return
                    } else if same_text(k.as_str(), "while") {
                        Start::While
                    } else if same_text(k.as_str(), "if") {
                        Start::If
                    } else if same_text(k.as_str(), "func") {
                        Start::Function
                    } else {
                        Start::Nothing
                    }
                },
                _ => Start::Nothing,
            },
            None => Start::Nothing,
        }
    }

    /// Parses one statement; there is none at the end marker, which is not
    /// stepped over.
    fn parse_statement(&mut self) -> (r: Result<Option<Statement>, ParseError>)
        ensures
            final(self).tokens() == old(self).tokens(),
            reads(
                statement(old(self).tokens(), old(self).position()),
                optional_statement_read(r),
                final(self).position(),
            ),
            r matches Ok(Some(_)) ==> final(self).position() > old(self).position(),
            r matches Ok(None) ==> final(self).position() == old(self).position(),
        decreases remaining(old(self).tokens(), old(self).position()), 9int,
    {
        match self.start() {
            Start::End => Ok(None),
            Start::Name(name) => {
                self.advance();
                wrap(self.parse_call_or_assignment(name))
            },
            Start::Block => match self.parse_braced() {
                Ok(body) => Ok(Some(Statement::Block(body))),
                Err(e) => Err(e),
            },
            Start::Declaration => {
                self.advance();
                wrap(self.parse_declaration())
            },
            Start::Print => {
                self.advance();
                match self.parse_terminated() {
                    Ok(value) => Ok(Some(Statement::Print(value))),
                    Err(e) => Err(e),
                }
            },
            Start::Return => {
                self.advance();
                match self.parse_terminated() {
                    Ok(value) => Ok(Some(Statement::Return(value))),
                    Err(e) => Err(e),
                }
            },
            Start::While => wrap(self.parse_while()),
            Start::If => wrap(self.parse_if()),
            Start::Function => wrap(self.parse_function()),
            Start::Nothing => Err(self.fail(Expected::Statement)),
        }
    }

    /// Parses the statements of a block, up to its closing brace.
    fn parse_block(&mut self) -> (r: Result<Vec<Statement>, ParseError>)
        ensures
            final(self).tokens() == old(self).tokens(),
            reads(
                block(old(self).tokens(), old(self).position(), Seq::empty()),
                statements_read(r),
                final(self).position(),
            ),
            r is Ok ==> final(self).position() >= old(self).position(),
        decreases remaining(old(self).tokens(), old(self).position()), 10int,
    {
        let mut statements: Vec<Statement> = Vec::new();
        assert(statement_models(statements@) =~= Seq::<StmtModel>::empty());
        loop
            invariant
                self.tokens() == old(self).tokens(),
                self.position() >= old(self).position(),
                block(old(self).tokens(), old(self).position(), Seq::empty()) == block(
                    self.tokens(),
                    self.position(),
                    statement_models(statements@),
                ),
            decreases remaining(self.tokens(), self.position()),
        {
            let ghost read = statement_models(statements@);
            let at_end = match self.peek() {
                Some(token) => match token {
                    Token::EOF => true,
                    _ => false,
                },
                None => true,
            };
            if at_end || self.at_punctuation("}") {
                return Ok(statements);
            }
            match self.parse_statement() {
                Err(e) => {
                    return Err(e);
                },
                Ok(None) => {
                    return Ok(statements);
                },
                Ok(Some(s)) => {
                    statements.push(s);
                    assert(statement_models(statements@) =~= read.push(s@));
                },
            }
        }
    }

    /// Parses a block in braces.
    fn parse_braced(&mut self) -> (r: Result<Vec<Statement>, ParseError>)
        ensures
            final(self).tokens() == old(self).tokens(),
            reads(
                braced(old(self).tokens(), old(self).position()),
                statements_read(r),
                final(self).position(),
            ),
            r is Ok ==> final(self).position() > old(self).position(),
        decreases remaining(old(self).tokens(), old(self).position() + 1), 11int,
    {
        match self.expect(Expected::OpenBrace) {
            Ok(_) => {},
            Err(e) => {
                return Err(e);
            },
        }
        let body = match self.parse_block() {
            Ok(b) => b,
            Err(e) => {
                return Err(e);
            },
        };
        match self.expect(Expected::CloseBrace) {
            Ok(_) => Ok(body),
            Err(e) => Err(e),
        }
    }

    /// Parses an expression and the semicolon after it.
    fn parse_terminated(&mut self) -> (r: Result<Expression, ParseError>)
        ensures
            final(self).tokens() == old(self).tokens(),
            reads(
                terminated(old(self).tokens(), old(self).position()),
                expression_read(r),
                final(self).position(),
            ),
            r is Ok ==> final(self).position() > old(self).position(),
    {
        let value = match self.parse_expression() {
            Ok(e) => e,
            Err(e) => {
                return Err(e);
            },
        };
        match self.expect(Expected::Semicolon) {
            Ok(_) => Ok(value),
            Err(e) => Err(e),
        }
    }

    /// Parses a declaration, from after `let`.
    fn parse_declaration(&mut self) -> (r: Result<Statement, ParseError>)
        ensures
            final(self).tokens() == old(self).tokens(),
            reads(
                declaration(old(self).tokens(), old(self).position()),
                statement_read(r),
                final(self).position(),
            ),
            r is Ok ==> final(self).position() > old(self).position(),
    {
        proof {
            reveal(declaration);
        }
        let name = match self.expect_name() {
            Ok(n) => n,
            Err(e) => {
                return Err(e);
            },
        };
        if self.at_operator("=") {
            self.advance();
            return match self.parse_terminated() {
                Ok(value) => Ok(Statement::Declaration(name, value, None)),
                Err(e) => Err(e),
            };
        }
        if self.at_punctuation(":") {
            self.advance();
            let declared = match self.expect_type() {
                Ok(t) => t,
                Err(e) => {
                    return Err(e);
                },
            };
            match self.expect(Expected::Assign) {
                Ok(_) => {},
                Err(e) => {
                    return Err(e);
                },
            }
            return match self.parse_terminated() {
                Ok(value) => Ok(Statement::Declaration(name, value, Some(declared))),
                Err(e) => Err(e),
            };
        }
        Err(self.fail(Expected::Declarator))
    }

    /// Parses a call used as a statement or an assignment, from after the
    /// name.
    fn parse_call_or_assignment(&mut self, name: String) -> (r: Result<Statement, ParseError>)
        ensures
            final(self).tokens() == old(self).tokens(),
            reads(
                call_or_assignment(old(self).tokens(), old(self).position(), name@),
                statement_read(r),
                final(self).position(),
            ),
            r is Ok ==> final(self).position() > old(self).position(),
    {
        proof {
            reveal(call_or_assignment);
        }
        if self.at_punctuation("(") {
            self.advance();
            let arguments = match self.parse_function_args() {
                Ok(a) => a,
                Err(e) => {
                    return Err(e);
                },
            };
            match self.expect(Expected::CloseParen) {
                Ok(_) => {},
                Err(e) => {
                    return Err(e);
                },
            }
            return match self.expect(Expected::Semicolon) {
                Ok(_) => Ok(Statement::Expression(Expression::FunctionCall { name, arguments })),
                Err(e) => Err(e),
            };
        }
        match self.expect(Expected::Assign) {
            Ok(_) => {},
            Err(e) => {
                return Err(e);
            },
        }
        match self.parse_terminated() {
            Ok(value) => Ok(Statement::Assignment(name, value)),
            Err(e) => Err(e),
        }
    }

    /// Parses the parameters of a function, from after the opening
    /// parenthesis.
    fn parse_parameters(&mut self) -> (r: Result<Vec<(String, Type)>, ParseError>)
        ensures
            final(self).tokens() == old(self).tokens(),
            reads(
                parameters(old(self).tokens(), old(self).position(), Seq::empty()),
                parameters_read(r),
                final(self).position(),
            ),
            r is Ok ==> final(self).position() >= old(self).position(),
    {
        let mut params: Vec<(String, Type)> = Vec::new();
        assert(parameter_models(params@) =~= Seq::<(Seq<char>, Type)>::empty());
        loop
            invariant
                self.tokens() == old(self).tokens(),
                self.position() >= old(self).position(),
                parameters(old(self).tokens(), old(self).position(), Seq::empty()) == parameters(
                    self.tokens(),
                    self.position(),
                    parameter_models(params@),
                ),
            decreases remaining(self.tokens(), self.position()),
        {
            let ghost read = parameter_models(params@);
            let name = match self.peek() {
                Some(token) => match token {
                    Token::Identifier(name) => Some(name.clone()),
                    _ => None,
                },
                None => None,
            };
            let name = match name {
                Some(n) => n,
                None => {
                    return Ok(params);
                },
            };
            self.advance();
            match self.expect(Expected::Colon) {
                Ok(_) => {},
                Err(e) => {
                    return Err(e);
                },
            }
            let param_type = match self.expect_type() {
                Ok(t) => t,
                Err(e) => {
                    return Err(e);
                },
            };
            let ghost entry = (name@, param_type);
            params.push((name, param_type));
            assert(parameter_models(params@) =~= read.push(entry));
            if self.at_punctuation(",") {
                self.advance();
            } else {
                return Ok(params);
            }
        }
    }

    /// Parses the head of a function declaration, from after `func`.
    fn parse_function_head(&mut self) -> (r: Result<(String, Vec<(String, Type)>, Type), ParseError>)
        ensures
            final(self).tokens() == old(self).tokens(),
            reads(
                function_head(old(self).tokens(), old(self).position()),
                head_read(r),
                final(self).position(),
            ),
            r is Ok ==> final(self).position() > old(self).position(),
    {
        proof {
            reveal(function_head);
        }
        let name = match self.expect_name() {
            Ok(n) => n,
            Err(e) => {
                return Err(e);
            },
        };
        match self.expect(Expected::OpenParen) {
            Ok(_) => {},
            Err(e) => {
                return Err(e);
            },
        }
        let params = match self.parse_parameters() {
            Ok(p) => p,
            Err(e) => {
                return Err(e);
            },
        };
        match self.expect(Expected::CloseParen) {
            Ok(_) => {},
            Err(e) => {
                return Err(e);
            },
        }
        if self.at_punctuation(":") {
            self.advance();
            return match self.expect_type() {
                Ok(result) => Ok((name, params, result)),
                Err(e) => Err(e),
            };
        }
        if self.at_punctuation("{") {
            return Ok((name, params, Type::Void));
        }
        Err(self.fail(Expected::ReturnType))
    }

    fn parse_expression(&mut self) -> (r: Result<Expression, ParseError>)
        ensures
            final(self).tokens() == old(self).tokens(),
            reads(
                expression(old(self).tokens(), old(self).position()),
                expression_read(r),
                final(self).position(),
            ),
            r is Ok ==> final(self).position() > old(self).position(),
        decreases remaining(old(self).tokens(), old(self).position()), 6int,
    {
        let mut left = match self.parse_addition() {
            Ok(e) => e,
            Err(e) => {
                return Err(e);
            },
        };
        loop
            invariant
                self.tokens() == old(self).tokens(),
                self.position() > old(self).position(),
                expression(old(self).tokens(), old(self).position()) == comparison_rest(
                    self.tokens(),
                    self.position(),
                    left@,
                ),
            decreases remaining(self.tokens(), self.position()),
        {
            let operator = match self.peek_operator() {
                Some(op) => op,
                None => {
                    return Ok(left);
                },
            };
            if !(same_text(operator.as_str(), "==") || same_text(operator.as_str(), ">")
                || same_text(operator.as_str(), "<")) {
                return Ok(left);
            }
            self.advance();
            let right = match self.parse_addition() {
                Ok(e) => e,
                Err(e) => {
                    return Err(e);
                },
            };
            left = Expression::BinaryOperation {
                left: Box::new(left),
                operator,
                right: Box::new(right),
            };
        }
    }

    fn parse_addition(&mut self) -> (r: Result<Expression, ParseError>)
        ensures
            final(self).tokens() == old(self).tokens(),
            reads(
                addition(old(self).tokens(), old(self).position()),
                expression_read(r),
                final(self).position(),
            ),
            r is Ok ==> final(self).position() > old(self).position(),
        decreases remaining(old(self).tokens(), old(self).position()), 4int,
    {
        let mut left = match self.parse_term() {
            Ok(e) => e,
            Err(e) => {
                return Err(e);
            },
        };
        loop
            invariant
                self.tokens() == old(self).tokens(),
                self.position() > old(self).position(),
                addition(old(self).tokens(), old(self).position()) == addition_rest(
                    self.tokens(),
                    self.position(),
                    left@,
                ),
            decreases remaining(self.tokens(), self.position()),
        {
            let operator = match self.peek_operator() {
                Some(op) => op,
                None => {
                    return Ok(left);
                },
            };
            if !(same_text(operator.as_str(), "+") || same_text(operator.as_str(), "-")) {
                return Ok(left);
            }
            self.advance();
            let right = match self.parse_term() {
                Ok(e) => e,
                Err(e) => {
                    return Err(e);
                },
            };
            left = Expression::BinaryOperation {
                left: Box::new(left),
                operator,
                right: Box::new(right),
            };
        }
    }

    fn parse_term(&mut self) -> (r: Result<Expression, ParseError>)
        ensures
            final(self).tokens() == old(self).tokens(),
            reads(
                term(old(self).tokens(), old(self).position()),
                expression_read(r),
                final(self).position(),
            ),
            r is Ok ==> final(self).position() > old(self).position(),
        decreases remaining(old(self).tokens(), old(self).position()), 2int,
    {
        let mut left = match self.parse_factor() {
            Ok(e) => e,
            Err(e) => {
                return Err(e);
            },
        };
        loop
            invariant
                self.tokens() == old(self).tokens(),
                self.position() > old(self).position(),
                term(old(self).tokens(), old(self).position()) == term_rest(
                    self.tokens(),
                    self.position(),
                    left@,
                ),
            decreases remaining(self.tokens(), self.position()),
        {
            let operator = match self.peek_operator() {
                Some(op) => op,
                None => {
                    return Ok(left);
                },
            };
            if !(same_text(operator.as_str(), "*") || same_text(operator.as_str(), "/")) {
                return Ok(left);
            }
            self.advance();
            let right = match self.parse_factor() {
                Ok(e) => e,
                Err(e) => {
                    return Err(e);
                },
            };
            left = Expression::BinaryOperation {
                left: Box::new(left),
                operator,
                right: Box::new(right),
            };
        }
    }

    fn parse_factor(&mut self) -> (r: Result<Expression, ParseError>)
        ensures
            final(self).tokens() == old(self).tokens(),
            reads(
                factor(old(self).tokens(), old(self).position()),
                expression_read(r),
                final(self).position(),
            ),
            r is Ok ==> final(self).position() > old(self).position(),
        decreases remaining(old(self).tokens(), old(self).position()), 0int,
    {
        if self.at_punctuation("(") {
            self.advance();
            let inner = match self.parse_expression() {
                Ok(e) => e,
                Err(e) => {
                    return Err(e);
                },
            };
            return match self.expect(Expected::CloseParen) {
                Ok(_) => Ok(inner),
                Err(e) => Err(e),
            };
        }
        let literal = match self.peek() {
            Some(token) => match token {
                Token::Number(n) => Some(Expression::Number(*n)),
                Token::Bool(b) => Some(Expression::Bool(*b)),
                Token::Identifier(name) => Some(Expression::Variable(name.clone())),
                _ => None,
            },
            None => None,
        };
        match literal {
            None => Err(self.fail(Expected::Expression)),
            Some(Expression::Variable(name)) => {
                self.advance();
                if self.at_punctuation("(") {
                    self.advance();
                    let arguments = match self.parse_function_args() {
                        Ok(a) => a,
                        Err(e) => {
                            return Err(e);
                        },
                    };
                    match self.expect(Expected::CloseParen) {
                        Ok(_) => Ok(Expression::FunctionCall { name, arguments }),
                        Err(e) => Err(e),
                    }
                } else {
                    Ok(Expression::Variable(name))
                }
            },
            Some(value) => {
                self.advance();
                Ok(value)
            },
        }
    }

    /// Parses the arguments of a call, from after the opening parenthesis up
    /// to but not including the closing one.
    fn parse_function_args(&mut self) -> (r: Result<Vec<Expression>, ParseError>)
        ensures
            final(self).tokens() == old(self).tokens(),
            reads(
                arguments(old(self).tokens(), old(self).position()),
                expressions_read(r),
                final(self).position(),
            ),
            r is Ok ==> final(self).position() >= old(self).position(),
        decreases remaining(old(self).tokens(), old(self).position()), 8int,
    {
        let mut args: Vec<Expression> = Vec::new();
        assert(expression_models(args@) =~= Seq::<ExprModel>::empty());
        if self.at_punctuation(")") {
            return Ok(args);
        }
        loop
            invariant
                self.tokens() == old(self).tokens(),
                self.position() >= old(self).position(),
                arguments(old(self).tokens(), old(self).position()) == arguments_rest(
                    self.tokens(),
                    self.position(),
                    expression_models(args@),
                ),
            decreases remaining(self.tokens(), self.position()),
        {
            let ghost read = expression_models(args@);
            let argument = match self.parse_expression() {
                Ok(e) => e,
                Err(e) => {
                    return Err(e);
                },
            };
            let ghost model = argument@;
            args.push(argument);
            assert(expression_models(args@) =~= read.push(model));
            if self.at_punctuation(")") {
                return Ok(args);
            }
            if self.at_punctuation(",") {
                self.advance();
            } else {
                return Err(self.fail(Expected::ArgumentEnd));
            }
        }
    }
}

/// The model of an optional run of statements.
pub open spec fn optional_statement_models(statements: Option<Vec<Statement>>) -> Option<
    Seq<StmtModel>,
> {
    match statements {
        Some(block) => Some(statement_models(block@)),
        None => None,
    }
}

/// Something that is shown the statements of a program one by one, each
/// taken apart into its pieces.
///
/// `visited` says what a visit does: it relates the visitor before the
/// visit, the statement, the visitor after the visit and what the visit
/// returned. `ready` is what the visitor needs to hold before a visit, and
/// keeps.
pub trait ASTVisitor: Sized {
    /// Why a visit fails.
    type Failure;

    spec fn ready(&self) -> bool;

    spec fn visited(
        &self,
        statement: StmtModel,
        after: &Self,
        result: Result<(), Self::Failure>,
    ) -> bool;

    fn visit_declaration(&mut self, name: String, expr: Expression, declared_type: Option<Type>) -> (r:
        Result<(), Self::Failure>)
        requires
            old(self).ready(),
        ensures
            final(self).ready(),
            old(self).visited(
                StmtModel::Declaration { name: name@, value: expr@, declared: declared_type },
                final(self),
                r,
            ),
    ;

    fn visit_assignment(&mut self, name: String, expr: Expression) -> (r: Result<
        (),
        Self::Failure,
    >)
        requires
            old(self).ready(),
        ensures
            final(self).ready(),
            old(self).visited(
                StmtModel::Assignment { name: name@, value: expr@ },
                final(self),
                r,
            ),
    ;

    fn visit_print(&mut self, expr: Expression) -> (r: Result<(), Self::Failure>)
        requires
            old(self).ready(),
        ensures
            final(self).ready(),
            old(self).visited(StmtModel::Print(expr@), final(self), r),
    ;

    fn visit_while(&mut self, condition: Expression, body: Vec<Statement>) -> (r: Result<
        (),
        Self::Failure,
    >)
        requires
            old(self).ready(),
        ensures
            final(self).ready(),
            old(self).visited(
                StmtModel::While { condition: condition@, body: statement_models(body@) },
                final(self),
                r,
            ),
    ;

    fn visit_block(&mut self, statements: Vec<Statement>) -> (r: Result<(), Self::Failure>)
        requires
            old(self).ready(),
        ensures
            final(self).ready(),
            old(self).visited(StmtModel::Block(statement_models(statements@)), final(self), r),
    ;

    fn visit_function_declaration(
        &mut self,
        name: String,
        params: Vec<(String, Type)>,
        return_type: Type,
        body: Vec<Statement>,
    ) -> (r: Result<(), Self::Failure>)
        requires
            old(self).ready(),
        ensures
            final(self).ready(),
            old(self).visited(
                StmtModel::FunctionDeclaration {
                    name: name@,
                    params: parameter_models(params@),
                    return_type,
                    body: statement_models(body@),
                },
                final(self),
                r,
            ),
    ;

    fn visit_if(
        &mut self,
        condition: Expression,
        body: Vec<Statement>,
        else_branch: Option<Vec<Statement>>,
    ) -> (r: Result<(), Self::Failure>)
        requires
            old(self).ready(),
        ensures
            final(self).ready(),
            old(self).visited(
                StmtModel::If {
                    condition: condition@,
                    then_block: statement_models(body@),
                    else_block: optional_statement_models(else_branch),
                },
                final(self),
                r,
            ),
    ;

    fn visit_expression(&mut self, expr: Expression) -> (r: Result<(), Self::Failure>)
        requires
            old(self).ready(),
        ensures
            final(self).ready(),
            old(self).visited(StmtModel::Expression(expr@), final(self), r),
    ;

    fn visit_return(&mut self, expr: Expression) -> (r: Result<(), Self::Failure>)
        requires
            old(self).ready(),
        ensures
            final(self).ready(),
            old(self).visited(StmtModel::Return(expr@), final(self), r),
    ;
}

impl Statement {
    /// Shows this statement to `visitor`: takes it apart and calls the
    /// method of the visitor that is meant for its kind.
    pub fn accept<V: ASTVisitor>(&self, visitor: &mut V) -> (r: Result<(), V::Failure>)
        requires
            old(visitor).ready(),
        ensures
            final(visitor).ready(),
            old(visitor).visited(self@, final(visitor), r),
    {
        match self {
            Statement::Declaration(name, exp, declared_type) => visitor.visit_declaration(
                name.clone(),
                exp.clone(),
                *declared_type,
            ),
            Statement::Assignment(name, exp) => visitor.visit_assignment(
                name.clone(),
                exp.clone(),
            ),
            Statement::Print(exp) => visitor.visit_print(exp.clone()),
            Statement::While { condition, body } => visitor.visit_while(
                condition.clone(),
                clone_statements(body),
            ),
            Statement::Block(statements) => visitor.visit_block(clone_statements(statements)),
            Statement::FunctionDeclaration { name, params, return_type, body } => {
                visitor.visit_function_declaration(
                    name.clone(),
                    clone_parameters(params),
                    *return_type,
                    clone_statements(body),
                )
            },
            Statement::If { condition, then_block, else_block } => {
                let else_copy = match else_block {
                    Some(block) => Some(clone_statements(block)),
                    None => None,
                };
                visitor.visit_if(condition.clone(), clone_statements(then_block), else_copy)
            },
            Statement::Expression(exp) => visitor.visit_expression(exp.clone()),
            Statement::Return(ret) => visitor.visit_return(ret.clone()),
        }
    }
}

} // verus!
