//! The lexer: from source text to tokens.

use vstd::prelude::*;
use crate::text::{chars_of, parse_decimal, parse_decimal_in, piece_of, same_text};

verus! {

/// The smallest lexical unit of a program.
#[derive(Debug, PartialEq)]
pub enum Token {
    Punctuation(String),
    Keyword(String),
    Operator(String),
    Identifier(String),
    Number(i32),
    Bool(bool),
    Type(String),
    EOF,
}

/// A token as a mathematical value.
pub enum TokenModel {
    Punctuation(Seq<char>),
    Keyword(Seq<char>),
    Operator(Seq<char>),
    Identifier(Seq<char>),
    Number(i32),
    Bool(bool),
    Type(Seq<char>),
    EOF,
}

impl View for Token {
    type V = TokenModel;

    open spec fn view(&self) -> TokenModel {
        match self {
            Token::Punctuation(s) => TokenModel::Punctuation(s@),
            Token::Keyword(s) => TokenModel::Keyword(s@),
            Token::Operator(s) => TokenModel::Operator(s@),
            Token::Identifier(s) => TokenModel::Identifier(s@),
            Token::Number(n) => TokenModel::Number(*n),
            Token::Bool(b) => TokenModel::Bool(*b),
            Token::Type(s) => TokenModel::Type(s@),
            Token::EOF => TokenModel::EOF,
        }
    }
}

impl Clone for Token {
    fn clone(&self) -> (copy: Token)
        ensures
            copy == *self,
    {
        match self {
            Token::Punctuation(s) => Token::Punctuation(s.clone()),
            Token::Keyword(s) => Token::Keyword(s.clone()),
            Token::Operator(s) => Token::Operator(s.clone()),
            Token::Identifier(s) => Token::Identifier(s.clone()),
            Token::Number(n) => Token::Number(*n),
            Token::Bool(b) => Token::Bool(*b),
            Token::Type(s) => Token::Type(s.clone()),
            Token::EOF => Token::EOF,
        }
    }
}

/// The models of a run of tokens.
pub open spec fn token_models(tokens: Seq<Token>) -> Seq<TokenModel> {
    tokens.map_values(|t: Token| t@)
}

/// A character that starts no token, and where it stands in the source,
/// counted in characters from zero.
#[derive(Debug, PartialEq, Eq, Clone, Copy, Structural)]
pub struct LexError {
    pub character: char,
    pub position: usize,
}

pub open spec fn is_space(c: char) -> bool {
    c == ' ' || c == '\n' || c == '\t' || c == '\r'
}

pub open spec fn is_punctuation(c: char) -> bool {
    c == '(' || c == ')' || c == '{' || c == '}' || c == ';' || c == ':' || c == ','
}

/// The one-character operators; `=` is handled apart, because `==` starts
/// with it.
pub open spec fn is_operator_char(c: char) -> bool {
    c == '+' || c == '-' || c == '*' || c == '/' || c == '>' || c == '<'
}

/// Letters, digits and the underscore.
pub open spec fn is_word_char(c: char) -> bool {
    ('0' <= c <= '9') || ('a' <= c <= 'z') || ('A' <= c <= 'Z') || c == '_'
}

/// A character that some token can hold or that is skipped.
pub open spec fn is_lexable(c: char) -> bool {
    is_space(c) || is_punctuation(c) || is_word_char(c) || c == '=' || is_operator_char(c)
}

pub open spec fn is_keyword(word: Seq<char>) -> bool {
    ||| word == "let"@
    ||| word == "croak"@
    ||| word == "while"@
    ||| word == "if"@
    ||| word == "else"@
    ||| word == "func"@
    ||| word == "return"@
}

pub open spec fn is_type_name(word: Seq<char>) -> bool {
    word == "number"@ || word == "bool"@
}

/// The token that a word becomes: a keyword, a type name, a boolean literal,
/// a number if the word reads as one, and an identifier otherwise.
pub open spec fn classify(word: Seq<char>) -> TokenModel {
    if is_keyword(word) {
        TokenModel::Keyword(word)
    } else if is_type_name(word) {
        TokenModel::Type(word)
    } else if word == "true"@ {
        TokenModel::Bool(true)
    } else if word == "false"@ {
        TokenModel::Bool(false)
    } else {
        match parse_decimal(word) {
            Some(n) => TokenModel::Number(n),
            None => TokenModel::Identifier(word),
        }
    }
}

/// Where the run of word characters that starts at `pos` ends.
pub open spec fn word_end(source: Seq<char>, pos: int) -> int
    decreases source.len() - pos,
{
    if 0 <= pos < source.len() && is_word_char(source[pos]) {
        word_end(source, pos + 1)
    } else {
        pos
    }
}

/// Puts `first` in front of the tokens of `rest`, if there are any.
pub open spec fn after(first: Seq<TokenModel>, rest: Result<Seq<TokenModel>, LexError>) -> Result<
    Seq<TokenModel>,
    LexError,
> {
    match rest {
        Ok(tokens) => Ok(first + tokens),
        Err(e) => Err(e),
    }
}

/// The tokens of `source` from `pos` on, the end marker last; or the first
/// character from there on that starts no token.
pub open spec fn scan(source: Seq<char>, pos: int) -> Result<Seq<TokenModel>, LexError>
    decreases source.len() - pos,
{
    if pos < 0 || pos >= source.len() {
        Ok(seq![TokenModel::EOF])
    } else {
        let c = source[pos];
        if is_space(c) {
            scan(source, pos + 1)
        } else if is_punctuation(c) {
            after(seq![TokenModel::Punctuation(seq![c])], scan(source, pos + 1))
        } else if is_word_char(c) {
            let end = word_end(source, pos + 1);
            proof {
                lemma_word_end_bounds(source, pos + 1);
            }
            after(seq![classify(source.subrange(pos, end))], scan(source, end))
        } else if c == '=' {
            if pos + 1 < source.len() && source[pos + 1] == '=' {
                after(seq![TokenModel::Operator("=="@)], scan(source, pos + 2))
            } else {
                after(seq![TokenModel::Operator("="@)], scan(source, pos + 1))
            }
        } else if is_operator_char(c) {
            after(seq![TokenModel::Operator(seq![c])], scan(source, pos + 1))
        } else {
            Err(LexError { character: c, position: #[verifier::truncate] (pos as usize) })
        }
    }
}

/// The tokens of a whole source text.
pub open spec fn tokens_of(source: Seq<char>) -> Result<Seq<TokenModel>, LexError> {
    scan(source, 0)
}

pub proof fn lemma_word_end_bounds(source: Seq<char>, pos: int)
    requires
        0 <= pos <= source.len(),
    ensures
        pos <= word_end(source, pos) <= source.len(),
    decreases source.len() - pos,
{
    if pos < source.len() && is_word_char(source[pos]) {
        lemma_word_end_bounds(source, pos + 1);
    }
}

/// A lexer over one source text.
pub struct Lexer<'a> {
    input: &'a str,
    position: usize,
}

impl<'a> Lexer<'a> {
    /// The source text.
    pub closed spec fn source(&self) -> Seq<char> {
        self.input@
    }

    /// How many characters have been consumed.
    pub closed spec fn consumed(&self) -> int {
        self.position as int
    }

    /// A lexer at the start of `input`.
    pub fn new(input: &'a str) -> (lexer: Lexer<'a>)
        ensures
            lexer.source() == input@,
            lexer.consumed() == 0,
    {
        Lexer { input, position: 0 }
    }

    fn is_at_end(chars: &Vec<char>, at: usize) -> (at_end: bool)
        ensures
            at_end == (at >= chars.len()),
    {
        at >= chars.len()
    }

    fn peek(chars: &Vec<char>, at: usize) -> (c: Option<char>)
        ensures
            c == if at < chars.len() {
                Some(chars@[at as int])
            } else {
                None
            },
    {
        if Self::is_at_end(chars, at) {
            return None;
        }
        Some(chars[at])
    }

    fn peek_next(chars: &Vec<char>, at: usize) -> (c: Option<char>)
        ensures
            c == if at + 1 < chars.len() {
                Some(chars@[at + 1])
            } else {
                None
            },
    {
        if Self::is_at_end(chars, at) || at + 1 >= chars.len() {
            return None;
        }
        Some(chars[at + 1])
    }

    /// The end of the run of word characters that starts at `at`.
    fn skip_word(chars: &Vec<char>, at: usize) -> (end: usize)
        requires
            at <= chars.len(),
        ensures
            end == word_end(chars@, at as int),
            at <= end <= chars.len(),
    {
        let mut end: usize = at;
        while end < chars.len() && is_word(chars[end])
            invariant
                at <= end <= chars.len(),
                word_end(chars@, at as int) == word_end(chars@, end as int),
            decreases chars.len() - end,
        {
            end += 1;
        }
        end
    }

    /// The token for the word `chars[from..to]`, where `chars` are the
    /// characters of `input`.
    fn word_token(input: &str, ascii: bool, chars: &Vec<char>, from: usize, to: usize) -> (token:
        Token)
        requires
            chars@ == input@,
            ascii ==> input.is_ascii(),
            from <= to <= chars.len(),
        ensures
            token@ == classify(chars@.subrange(from as int, to as int)),
    {
        let word = piece_of(input, ascii, from, to);
        let w = word.as_str();
        if same_text(w, "let") || same_text(w, "croak") || same_text(w, "while") || same_text(
            w,
            "if",
        ) || same_text(w, "else") || same_text(w, "func") || same_text(w, "return") {
            Token::Keyword(word)
        } else if same_text(w, "number") || same_text(w, "bool") {
            Token::Type(word)
        } else if same_text(w, "true") {
            Token::Bool(true)
        } else if same_text(w, "false") {
            Token::Bool(false)
        } else {
            match parse_decimal_in(chars, from, to) {
                Some(n) => Token::Number(n),
                None => Token::Identifier(word),
            }
        }
    }

    /// Turns the rest of the source into tokens, the end marker last. Fails
    /// at the first character that starts no token, and stops there.
    pub fn parse(&mut self) -> (result: Result<Vec<Token>, LexError>)
        ensures
            final(self).source() == old(self).source(),
            match scan(old(self).source(), old(self).consumed()) {
                Ok(tokens) => {
                    &&& result is Ok
                    &&& token_models(result->Ok_0@) == tokens
                    &&& final(self).consumed() == if old(self).consumed() <= old(
                        self,
                    ).source().len() {
                        old(self).source().len() as int
                    } else {
                        old(self).consumed()
                    }
                },
                Err(e) => result == Err::<Vec<Token>, LexError>(e) && final(self).consumed()
                    == e.position,
            },
    {
        let chars = chars_of(self.input);
        let ascii = self.input.is_ascii();
        let ghost source = chars@;
        let ghost start = self.position as int;
        let mut tokens: Vec<Token> = Vec::new();
        let mut at: usize = self.position;
        assert(token_models(tokens@) =~= Seq::<TokenModel>::empty());
        loop
            invariant
                *self == *old(self),
                ascii ==> self.input.is_ascii(),
                start == self.position,
                chars@ == source,
                source == self.input@,
                0 <= start <= at,
                at <= chars.len() || at == start,
                scan(source, start) == after(token_models(tokens@), scan(source, at as int)),
            decreases chars.len() - at,
        {
            let ghost before = token_models(tokens@);
            match Self::peek(&chars, at) {
                None => {
                    tokens.push(Token::EOF);
                    assert(token_models(tokens@) =~= before + seq![TokenModel::EOF]);
                    self.position = at;
                    return Ok(tokens);
                },
                Some(c) => {
                    if c == ' ' || c == '\n' || c == '\t' || c == '\r' {
                        at += 1;
                    } else if c == '(' || c == ')' || c == '{' || c == '}' || c == ';' || c == ':'
                        || c == ',' {
                        let token = Token::Punctuation(piece_of(self.input, ascii, at, at + 1));
                        assert(source.subrange(at as int, at + 1) =~= seq![c]);
                        let ghost one = seq![token@];
                        tokens.push(token);
                        proof {
                            lemma_after_after(before, one, scan(source, at + 1));
                            assert(token_models(tokens@) =~= before + one);
                        }
                        at += 1;
                    } else if is_word(c) {
                        let end = Self::skip_word(&chars, at + 1);
                        let token = Self::word_token(self.input, ascii, &chars, at, end);
                        let ghost one = seq![token@];
                        tokens.push(token);
                        proof {
                            lemma_after_after(before, one, scan(source, end as int));
                            assert(token_models(tokens@) =~= before + one);
                        }
                        at = end;
                    } else if c == '=' {
                        let double = match Self::peek_next(&chars, at) {
                            Some(next) => next == '=',
                            None => false,
                        };
                        if double {
                            let token = Token::Operator(String::from_str("=="));
                            let ghost one = seq![token@];
                            tokens.push(token);
                            proof {
                                lemma_after_after(before, one, scan(source, at + 2));
                                assert(token_models(tokens@) =~= before + one);
                            }
                            at += 2;
                        } else {
                            let token = Token::Operator(String::from_str("="));
                            let ghost one = seq![token@];
                            tokens.push(token);
                            proof {
                                lemma_after_after(before, one, scan(source, at + 1));
                                assert(token_models(tokens@) =~= before + one);
                            }
                            at += 1;
                        }
                    } else if c == '+' || c == '-' || c == '*' || c == '/' || c == '>' || c
                        == '<' {
                        let token = Token::Operator(piece_of(self.input, ascii, at, at + 1));
                        assert(source.subrange(at as int, at + 1) =~= seq![c]);
                        let ghost one = seq![token@];
                        tokens.push(token);
                        proof {
                            lemma_after_after(before, one, scan(source, at + 1));
                            assert(token_models(tokens@) =~= before + one);
                        }
                        at += 1;
                    } else {
                        self.position = at;
                        return Err(LexError { character: c, position: at });
                    }
                },
            }
        }
    }
}

fn is_word(c: char) -> (word: bool)
    ensures
        word == is_word_char(c),
{
    ('0' <= c && c <= '9') || ('a' <= c && c <= 'z') || ('A' <= c && c <= 'Z') || c == '_'
}

pub proof fn lemma_after_after(
    first: Seq<TokenModel>,
    second: Seq<TokenModel>,
    rest: Result<Seq<TokenModel>, LexError>,
)
    ensures
        after(first, after(second, rest)) == after(first + second, rest),
{
    if let Ok(tokens) = rest {
        assert(first + (second + tokens) =~= (first + second) + tokens);
    }
}

} // verus!
