use froggle::lexer::Token::{EOF, Identifier, Keyword, Number, Operator, Punctuation};
use froggle::lexer::{LexError, Lexer, Token};

fn lex(source: &str) -> Result<Vec<Token>, LexError> {
    Lexer::new(source).parse()
}

fn text(s: &str) -> String {
    s.to_string()
}

#[test]
fn test_single_identifier() {
    let mut lexer = Lexer::new("frog");
    let tokens = lexer.parse().unwrap();

    assert_eq!(tokens.len(), 2);
    assert!(matches!(tokens[0], Identifier(ref s) if s == "frog"));
    assert!(matches!(tokens[1], EOF));
}

#[test]
fn test_let_assignment() {
    let mut lexer = Lexer::new("let x = 42;");
    let tokens = lexer.parse().unwrap();
    println!("{:?}", tokens);

    assert_eq!(tokens.len(), 6);
    assert!(matches!(tokens[0], Keyword(ref s) if s == "let"));
    assert!(matches!(tokens[1], Identifier(ref s) if s == "x"));
    assert!(matches!(tokens[2], Operator(ref s) if s == "="));
    assert!(matches!(tokens[3], Number(n) if n == 42));
    assert!(matches!(tokens[4], Punctuation(ref s) if s == ";"));
    assert!(matches!(tokens[5], EOF));
}

#[test]
fn test_arithmetic_expression() {
    let mut lexer = Lexer::new("1 + 2 * 3");
    let tokens = lexer.parse().unwrap();

    assert_eq!(tokens.len(), 6);
    assert!(matches!(tokens[0], Number(1)));
    assert!(matches!(tokens[1], Operator(ref s) if s == "+"));
    assert!(matches!(tokens[2], Number(2)));
    assert!(matches!(tokens[3], Operator(ref s) if s == "*"));
    assert!(matches!(tokens[4], Number(3)));
    assert!(matches!(tokens[5], EOF));
}

#[test]
fn empty_source_gives_only_the_end_marker() {
    assert_eq!(lex(""), Ok(vec![EOF]));
    assert_eq!(lex(" \t\r\n "), Ok(vec![EOF]));
}

#[test]
fn every_keyword_is_a_keyword() {
    let tokens = lex("let croak while if else func return").unwrap();
    let expected: Vec<Token> = ["let", "croak", "while", "if", "else", "func", "return"]
        .iter()
        .map(|k| Keyword(text(k)))
        .chain(std::iter::once(EOF))
        .collect();
    assert_eq!(tokens, expected);
}

#[test]
fn type_names_and_boolean_literals() {
    assert_eq!(
        lex("number bool true false"),
        Ok(vec![
            Token::Type(text("number")),
            Token::Type(text("bool")),
            Token::Bool(true),
            Token::Bool(false),
            EOF,
        ])
    );
}

#[test]
fn every_punctuation_mark() {
    let tokens = lex("(){};:,").unwrap();
    let expected: Vec<Token> = ["(", ")", "{", "}", ";", ":", ","]
        .iter()
        .map(|p| Punctuation(text(p)))
        .chain(std::iter::once(EOF))
        .collect();
    assert_eq!(tokens, expected);
}

#[test]
fn every_operator() {
    let tokens = lex("= == + - * / > <").unwrap();
    let expected: Vec<Token> = ["=", "==", "+", "-", "*", "/", ">", "<"]
        .iter()
        .map(|p| Operator(text(p)))
        .chain(std::iter::once(EOF))
        .collect();
    assert_eq!(tokens, expected);
}

#[test]
fn equals_signs_pair_up_from_the_left() {
    assert_eq!(
        lex("==="),
        Ok(vec![Operator(text("==")), Operator(text("=")), EOF])
    );
    assert_eq!(
        lex("= ="),
        Ok(vec![Operator(text("=")), Operator(text("=")), EOF])
    );
}

#[test]
fn words_are_as_long_as_they_can_be() {
    assert_eq!(
        lex("letx let_ 12ab _1 iffy"),
        Ok(vec![
            Identifier(text("letx")),
            Identifier(text("let_")),
            Identifier(text("12ab")),
            Identifier(text("_1")),
            Identifier(text("iffy")),
            EOF,
        ])
    );
}

#[test]
fn tokens_need_no_space_between_them() {
    assert_eq!(
        lex("x=y+1;"),
        Ok(vec![
            Identifier(text("x")),
            Operator(text("=")),
            Identifier(text("y")),
            Operator(text("+")),
            Number(1),
            Punctuation(text(";")),
            EOF,
        ])
    );
}

#[test]
fn numbers_up_to_the_largest() {
    assert_eq!(lex("0"), Ok(vec![Number(0), EOF]));
    assert_eq!(lex("007"), Ok(vec![Number(7), EOF]));
    assert_eq!(lex("2147483647"), Ok(vec![Number(2147483647), EOF]));
    assert_eq!(lex("0000000000002147483647"), Ok(vec![Number(2147483647), EOF]));
}

#[test]
fn a_numeral_that_does_not_fit_is_an_identifier() {
    assert_eq!(lex("2147483648"), Ok(vec![Identifier(text("2147483648")), EOF]));
    assert_eq!(
        lex("99999999999999999999"),
        Ok(vec![Identifier(text("99999999999999999999")), EOF])
    );
}

#[test]
fn a_minus_sign_is_an_operator_of_its_own() {
    assert_eq!(lex("-5"), Ok(vec![Operator(text("-")), Number(5), EOF]));
}

#[test]
fn unknown_character_is_an_error_with_its_position() {
    assert_eq!(
        lex("let x = 1 @ 2;"),
        Err(LexError { character: '@', position: 10 })
    );
    assert_eq!(lex("#"), Err(LexError { character: '#', position: 0 }));
    assert_eq!(lex("a.b"), Err(LexError { character: '.', position: 1 }));
}

#[test]
fn the_first_unknown_character_is_reported() {
    assert_eq!(lex("a ? b ! c"), Err(LexError { character: '?', position: 2 }));
}

#[test]
fn characters_outside_ascii_are_unknown() {
    assert_eq!(lex("caf\u{e9}"), Err(LexError { character: '\u{e9}', position: 3 }));
    assert_eq!(lex("\u{1f438} x"), Err(LexError { character: '\u{1f438}', position: 0 }));
    assert_eq!(lex("x \u{1f438} @"), Err(LexError { character: '\u{1f438}', position: 2 }));
}

#[test]
fn lexing_again_after_the_end_gives_the_end_marker() {
    let mut lexer = Lexer::new("a b");
    assert_eq!(
        lexer.parse(),
        Ok(vec![Identifier(text("a")), Identifier(text("b")), EOF])
    );
    assert_eq!(lexer.parse(), Ok(vec![EOF]));
}

#[test]
fn lexing_again_after_an_error_stops_at_the_same_character() {
    let mut lexer = Lexer::new("a @ b");
    assert_eq!(lexer.parse(), Err(LexError { character: '@', position: 2 }));
    assert_eq!(lexer.parse(), Err(LexError { character: '@', position: 2 }));
}

fn token_text(token: &Token) -> String {
    match token {
        Punctuation(s) | Keyword(s) | Operator(s) | Identifier(s) | Token::Type(s) => s.clone(),
        Number(n) => n.to_string(),
        Token::Bool(b) => b.to_string(),
        EOF => String::new(),
    }
}

#[test]
fn token_texts_give_back_the_source_without_its_spaces() {
    let source = "func fact(n: number): number {\n\tif n < 2 { return 1; }\r\n return n * fact(n - 1);\n}\nlet ok: bool = fact(5) == 120;";
    let tokens = lex(source).unwrap();
    let joined: String = tokens.iter().map(token_text).collect();
    let stripped: String = source
        .chars()
        .filter(|c| !matches!(c, ' ' | '\n' | '\t' | '\r'))
        .collect();
    assert_eq!(joined, stripped);
}

#[test]
fn a_numeral_with_leading_zeros_is_not_given_back() {
    let tokens = lex("x = 007;").unwrap();
    let joined: String = tokens.iter().map(token_text).collect();
    assert_eq!(joined, "x=7;");
}
