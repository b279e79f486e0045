//! The grammar reads back what `notation` writes down: the same tree,
//! whatever its shape.

use vstd::prelude::*;
use crate::grammar::{
    addition, addition_rest, arguments, arguments_rest, binary, block, braced,
    call_or_assignment, comparison_rest, declaration, expression, factor, function_declaration,
    function_head, if_statement, is_addition_operator, is_keyword, is_punctuation,
    is_term_operator, parameters, program, start_of, statement, term, term_rest, terminated,
    token_at, while_statement, ParseErrorModel, Start,
};
use crate::lexer::TokenModel;
use crate::notation::{
    assign, close_paren, comma, in_braces, keyword, mark, open_paren, plain, rank, stands,
    type_token, writable, writable_statement, writable_statements, written, written_arguments,
    written_head, written_parameters, written_statement, written_statements,
};
use crate::parser::Type;
use crate::syntax::{ExprModel, StmtModel};

verus! {

/// Each of the tokens that stand at `pos` is the token at its place.
pub proof fn lemma_stands_at(ts: Seq<TokenModel>, pos: int, written: Seq<TokenModel>, i: int)
    requires
        stands(ts, pos, written),
        0 <= i < written.len(),
    ensures
        token_at(ts, pos + i) == Some(written[i]),
{
    assert(ts.subrange(pos, pos + written.len())[i] == ts[pos + i]);
}

/// Where two runs of tokens stand one after the other, each stands in its
/// place.
pub proof fn lemma_stands_apart(
    ts: Seq<TokenModel>,
    pos: int,
    first: Seq<TokenModel>,
    second: Seq<TokenModel>,
)
    requires
        stands(ts, pos, first + second),
    ensures
        stands(ts, pos, first),
        stands(ts, pos + first.len(), second),
{
    let whole = first + second;
    assert(ts.subrange(pos, pos + first.len()) =~= whole.subrange(0, first.len() as int));
    assert(whole.subrange(0, first.len() as int) =~= first);
    assert(ts.subrange(pos + first.len(), pos + first.len() + second.len()) =~= whole.subrange(
        first.len() as int,
        whole.len() as int,
    ));
    assert(whole.subrange(first.len() as int, whole.len() as int) =~= second);
}

/// The marks of the language are one character each, but `==`.
pub proof fn lemma_marks()
    ensures
        "("@ == seq!['('],
        ")"@ == seq![')'],
        ","@ == seq![','],
        ";"@ == seq![';'],
        ":"@ == seq![':'],
        "{"@ == seq!['{'],
        "}"@ == seq!['}'],
        "="@ == seq!['='],
        "=="@ == seq!['=', '='],
        "+"@ == seq!['+'],
        "-"@ == seq!['-'],
        "*"@ == seq!['*'],
        "/"@ == seq!['/'],
        ">"@ == seq!['>'],
        "<"@ == seq!['<'],
        forall|a: char, b: char| a != b ==> seq![a] != seq![b],
{
    reveal_strlit("(");
    reveal_strlit(")");
    reveal_strlit(",");
    reveal_strlit(";");
    reveal_strlit(":");
    reveal_strlit("{");
    reveal_strlit("}");
    reveal_strlit("=");
    reveal_strlit("==");
    reveal_strlit("+");
    reveal_strlit("-");
    reveal_strlit("*");
    reveal_strlit("/");
    reveal_strlit(">");
    reveal_strlit("<");
    assert("("@ =~= seq!['(']);
    assert(")"@ =~= seq![')']);
    assert(","@ =~= seq![',']);
    assert(";"@ =~= seq![';']);
    assert(":"@ =~= seq![':']);
    assert("{"@ =~= seq!['{']);
    assert("}"@ =~= seq!['}']);
    assert("="@ =~= seq!['=']);
    assert("=="@ =~= seq!['=', '=']);
    assert("+"@ =~= seq!['+']);
    assert("-"@ =~= seq!['-']);
    assert("*"@ =~= seq!['*']);
    assert("/"@ =~= seq!['/']);
    assert(">"@ =~= seq!['>']);
    assert("<"@ =~= seq!['<']);
    assert forall|a: char, b: char| a != b implies seq![a] != seq![b] by {
        assert(seq![a][0] == a);
        assert(seq![b][0] == b);
    }
}

/// The words of the language differ from each other.
pub proof fn lemma_words()
    ensures
        "let"@.len() == 3,
        "croak"@.len() == 5 && "croak"@[0] == 'c',
        "return"@.len() == 6,
        "while"@.len() == 5 && "while"@[0] == 'w',
        "if"@.len() == 2,
        "func"@.len() == 4 && "func"@[0] == 'f',
        "else"@.len() == 4 && "else"@[0] == 'e',
        "number"@.len() == 6,
        "bool"@.len() == 4,
{
    reveal_strlit("let");
    reveal_strlit("croak");
    reveal_strlit("return");
    reveal_strlit("while");
    reveal_strlit("if");
    reveal_strlit("func");
    reveal_strlit("else");
    reveal_strlit("number");
    reveal_strlit("bool");
}

/// Whether `token` may start an expression.
pub open spec fn starts_expression(token: TokenModel) -> bool {
    ||| token is Number
    ||| token is Bool
    ||| token is Identifier
    ||| token == open_paren()
}

/// What is written of an expression starts as an expression does.
pub proof fn lemma_written_starts(e: ExprModel, least: int)
    ensures
        written(e, least).len() > 0,
        starts_expression(written(e, least)[0]),
    decreases e,
{
    if rank(e) >= least {
        match e {
            ExprModel::Binary { left, operator, right } => {
                lemma_written_starts(*left, rank(e));
            },
            _ => {},
        }
    }
}

/// What may follow an expression that stands where one of rank `least` or
/// more is read: no opening parenthesis, and no operator that holds
/// tighter than that rank.
pub open spec fn may_follow(token: Option<TokenModel>, least: int) -> bool {
    &&& token != Some(open_paren())
    &&& match token {
        Some(TokenModel::Operator(op)) => {
            &&& least < 2 ==> !is_term_operator(op)
            &&& least < 1 ==> !is_addition_operator(op)
        },
        _ => true,
    }
}

/// What reading at rank `least` makes of the tokens from `pos`, if `e`
/// was read up to `end`: the rest of the term, the addition or the
/// comparison that starts with `e` is read from there.
pub open spec fn read_on(ts: Seq<TokenModel>, pos: int, e: ExprModel, end: int, least: int) -> bool {
    if least >= 3 {
        factor(ts, pos) == Ok::<_, ParseErrorModel>((e, end))
    } else if least == 2 {
        term(ts, pos) == term_rest(ts, end, e)
    } else if least == 1 {
        addition(ts, pos) == addition_rest(ts, end, e)
    } else {
        expression(ts, pos) == comparison_rest(ts, end, e)
    }
}

/// The order in which the proof below goes through the ranks of one
/// expression.
pub open spec fn steps(e: ExprModel, least: int) -> int {
    if rank(e) < least {
        4
    } else {
        rank(e) - least
    }
}

/// Where the tokens written for `e` stand in a place for expressions of
/// rank `least` or more, before a token that may follow there, `e` is read:
/// a factor is read as `e`, and a looser construct goes on from the end of
/// the tokens with `e` as what it has read so far.
pub proof fn lemma_written_read(ts: Seq<TokenModel>, pos: int, e: ExprModel, least: int)
    requires
        writable(e),
        0 <= least <= 3,
        stands(ts, pos, written(e, least)),
        may_follow(token_at(ts, pos + written(e, least).len()), least),
    ensures
        read_on(ts, pos, e, pos + written(e, least).len(), least),
    decreases e, steps(e, least),
{
    let end = pos + written(e, least).len();
    lemma_marks();
    lemma_written_starts(e, least);
    if rank(e) < least {
        let inner = plain(e);
        assert(written(e, 0) == inner);
        lemma_stands_apart(ts, pos, seq![open_paren()] + inner, seq![close_paren()]);
        lemma_stands_apart(ts, pos, seq![open_paren()], inner);
        lemma_stands_at(ts, pos, seq![open_paren()], 0);
        lemma_stands_at(ts, end - 1, seq![close_paren()], 0);
        lemma_written_read(ts, pos + 1, e, 0);
        assert(factor(ts, pos) == Ok::<_, ParseErrorModel>((e, end)));
    } else if rank(e) > least {
        assert(written(e, least) == written(e, least + 1));
        lemma_written_read(ts, pos, e, least + 1);
    } else {
        match e {
            ExprModel::Binary { left, operator, right } => {
                let first = written(*left, least);
                let second = written(*right, least + 1);
                let op = seq![TokenModel::Operator(operator)];
                lemma_written_starts(*left, least);
                lemma_written_starts(*right, least + 1);
                lemma_stands_apart(ts, pos, first + op, second);
                lemma_stands_apart(ts, pos, first, op);
                lemma_stands_at(ts, pos + first.len(), op, 0);
                lemma_written_read(ts, pos, *left, least);
                lemma_written_read(ts, pos + first.len() + 1, *right, least + 1);
                assert(binary(*left, operator, *right) == e);
            },
            ExprModel::Call { name, arguments: args } => {
                let inner = written_arguments(args);
                let head = seq![TokenModel::Identifier(name), open_paren()];
                lemma_stands_apart(ts, pos, head + inner, seq![close_paren()]);
                lemma_stands_apart(ts, pos, head, inner);
                assert(head =~= seq![TokenModel::Identifier(name)] + seq![open_paren()]);
                lemma_stands_apart(ts, pos, seq![TokenModel::Identifier(name)], seq![open_paren()]);
                lemma_stands_at(ts, pos, seq![TokenModel::Identifier(name)], 0);
                lemma_stands_at(ts, pos + 1, seq![open_paren()], 0);
                lemma_stands_at(ts, end - 1, seq![close_paren()], 0);
                lemma_arguments_read(ts, pos + 2, args);
            },
            _ => {
                lemma_stands_at(ts, pos, written(e, least), 0);
            },
        }
    }
}

/// Where the tokens written for the arguments of a call stand before a
/// closing parenthesis, the arguments are read.
pub proof fn lemma_arguments_read(ts: Seq<TokenModel>, pos: int, args: Seq<ExprModel>)
    requires
        forall|i: int| 0 <= i < args.len() ==> writable(#[trigger] args[i]),
        stands(ts, pos, written_arguments(args)),
        is_punctuation(ts, pos + written_arguments(args).len(), ")"@),
    ensures
        arguments(ts, pos) == Ok::<_, ParseErrorModel>(
            (args, pos + written_arguments(args).len()),
        ),
    decreases args, 1int,
{
    lemma_marks();
    if args.len() == 0 {
        assert(args =~= Seq::empty());
    } else {
        lemma_written_starts(args[0], 0);
        if args.len() == 1 {
            lemma_stands_at(ts, pos, written_arguments(args), 0);
        } else {
            lemma_stands_apart(
                ts,
                pos,
                written(args[0], 0) + seq![comma()],
                written_arguments(args.drop_first()),
            );
            lemma_stands_apart(ts, pos, written(args[0], 0), seq![comma()]);
            lemma_stands_at(ts, pos, written(args[0], 0), 0);
        }
        lemma_arguments_rest_read(ts, pos, args, Seq::empty());
        assert(Seq::<ExprModel>::empty() + args =~= args);
    }
}

/// The same, from any argument on: `read` holds the arguments before.
pub proof fn lemma_arguments_rest_read(
    ts: Seq<TokenModel>,
    pos: int,
    args: Seq<ExprModel>,
    read: Seq<ExprModel>,
)
    requires
        args.len() > 0,
        forall|i: int| 0 <= i < args.len() ==> writable(#[trigger] args[i]),
        stands(ts, pos, written_arguments(args)),
        is_punctuation(ts, pos + written_arguments(args).len(), ")"@),
    ensures
        arguments_rest(ts, pos, read) == Ok::<_, ParseErrorModel>(
            (read + args, pos + written_arguments(args).len()),
        ),
    decreases args, 0int,
{
    let first = written(args[0], 0);
    lemma_marks();
    lemma_written_starts(args[0], 0);
    if args.len() == 1 {
        lemma_written_read(ts, pos, args[0], 0);
        assert(read + args =~= read.push(args[0]));
    } else {
        let others = args.drop_first();
        lemma_stands_apart(ts, pos, first + seq![comma()], written_arguments(others));
        lemma_stands_apart(ts, pos, first, seq![comma()]);
        lemma_stands_at(ts, pos + first.len(), seq![comma()], 0);
        lemma_written_read(ts, pos, args[0], 0);
        assert forall|i: int| 0 <= i < others.len() implies writable(#[trigger] others[i]) by {
            assert(others[i] == args[i + 1]);
        }
        lemma_arguments_rest_read(ts, pos + first.len() + 1, others, read.push(args[0]));
        assert(read.push(args[0]) + others =~= read + args);
    }
}

/// Where an expression and a semicolon stand, they are read.
pub proof fn lemma_terminated_read(ts: Seq<TokenModel>, pos: int, e: ExprModel)
    requires
        writable(e),
        stands(ts, pos, written(e, 0) + seq![mark(";"@)]),
    ensures
        terminated(ts, pos) == Ok::<_, ParseErrorModel>((e, pos + written(e, 0).len() + 1)),
{
    lemma_marks();
    lemma_written_starts(e, 0);
    lemma_stands_apart(ts, pos, written(e, 0), seq![mark(";"@)]);
    lemma_stands_at(ts, pos + written(e, 0).len(), seq![mark(";"@)], 0);
    lemma_written_read(ts, pos, e, 0);
}

/// Where an expression stands before an opening brace, it is read.
pub proof fn lemma_condition_read(ts: Seq<TokenModel>, pos: int, e: ExprModel)
    requires
        writable(e),
        stands(ts, pos, written(e, 0)),
        is_punctuation(ts, pos + written(e, 0).len(), "{"@),
    ensures
        expression(ts, pos) == Ok::<_, ParseErrorModel>((e, pos + written(e, 0).len())),
{
    lemma_marks();
    lemma_written_starts(e, 0);
    lemma_written_read(ts, pos, e, 0);
}

/// Where the parameters of a function stand before a closing parenthesis,
/// they are read. `read` holds the parameters before.
pub proof fn lemma_parameters_read(
    ts: Seq<TokenModel>,
    pos: int,
    params: Seq<(Seq<char>, Type)>,
    read: Seq<(Seq<char>, Type)>,
)
    requires
        forall|i: int| 0 <= i < params.len() ==> !((#[trigger] params[i]).1 is Void),
        stands(ts, pos, written_parameters(params)),
        is_punctuation(ts, pos + written_parameters(params).len(), ")"@),
    ensures
        parameters(ts, pos, read) == Ok::<_, ParseErrorModel>(
            (read + params, pos + written_parameters(params).len()),
        ),
    decreases params.len(),
{
    lemma_marks();
    lemma_words();
    if params.len() == 0 {
        assert(read + params =~= read);
    } else {
        let first = seq![TokenModel::Identifier(params[0].0), mark(":"@), type_token(params[0].1)];
        assert(!(params[0].1 is Void));
        if params.len() == 1 {
            lemma_stands_at(ts, pos, first, 0);
            lemma_stands_at(ts, pos, first, 1);
            lemma_stands_at(ts, pos, first, 2);
            assert(read + params =~= read.push(params[0]));
        } else {
            let others = params.drop_first();
            lemma_stands_apart(ts, pos, first + seq![comma()], written_parameters(others));
            lemma_stands_apart(ts, pos, first, seq![comma()]);
            lemma_stands_at(ts, pos, first, 0);
            lemma_stands_at(ts, pos, first, 1);
            lemma_stands_at(ts, pos, first, 2);
            lemma_stands_at(ts, pos + 3, seq![comma()], 0);
            assert forall|i: int| 0 <= i < others.len() implies !((#[trigger] others[i]).1
                is Void) by {
                assert(others[i] == params[i + 1]);
            }
            lemma_parameters_read(ts, pos + 4, others, read.push(params[0]));
            assert(read.push(params[0]) + others =~= read + params);
        }
    }
}

/// Where a declaration stands, it is read from after `let`.
pub proof fn lemma_declaration_read(ts: Seq<TokenModel>, pos: int, s: StmtModel)
    requires
        s is Declaration,
        writable_statement(s),
        stands(ts, pos, written_statement(s)),
    ensures
        token_at(ts, pos) == Some(keyword("let"@)),
        declaration(ts, pos + 1) == Ok::<_, ParseErrorModel>(
            (s, pos + written_statement(s).len()),
        ),
{
    reveal(declaration);
    lemma_marks();
    lemma_words();
    lemma_stands_at(ts, pos, written_statement(s), 0);
    let name = s->Declaration_name;
    let value = s->Declaration_value;
    let declared = s->Declaration_declared;
    let rest = written(value, 0) + seq![mark(";"@)];
    match declared {
        None => {
            let head = seq![keyword("let"@), TokenModel::Identifier(name), assign()];
            assert(written_statement(s) =~= head + rest);
            lemma_stands_apart(ts, pos, head, rest);
            lemma_stands_at(ts, pos, head, 1);
            lemma_stands_at(ts, pos, head, 2);
            lemma_terminated_read(ts, pos + 3, value);
        },
        Some(named) => {
            let head = seq![
                keyword("let"@),
                TokenModel::Identifier(name),
                mark(":"@),
                type_token(named),
                assign(),
            ];
            assert(written_statement(s) =~= head + rest);
            lemma_stands_apart(ts, pos, head, rest);
            lemma_stands_at(ts, pos, head, 1);
            lemma_stands_at(ts, pos, head, 2);
            lemma_stands_at(ts, pos, head, 3);
            lemma_stands_at(ts, pos, head, 4);
            lemma_terminated_read(ts, pos + 5, value);
        },
    }
}

/// Where an assignment stands, it is read from after the name.
pub proof fn lemma_assignment_read(ts: Seq<TokenModel>, pos: int, s: StmtModel)
    requires
        s is Assignment,
        writable_statement(s),
        stands(ts, pos, written_statement(s)),
    ensures
        token_at(ts, pos) == Some(TokenModel::Identifier(s->Assignment_name)),
        call_or_assignment(ts, pos + 1, s->Assignment_name) == Ok::<_, ParseErrorModel>(
            (s, pos + written_statement(s).len()),
        ),
{
    reveal(call_or_assignment);
    lemma_marks();
    let name = s->Assignment_name;
    let value = s->Assignment_value;
    let head = seq![TokenModel::Identifier(name), assign()];
    let rest = written(value, 0) + seq![mark(";"@)];
    assert(written_statement(s) =~= head + rest);
    lemma_stands_apart(ts, pos, head, rest);
    lemma_stands_at(ts, pos, head, 0);
    lemma_stands_at(ts, pos, head, 1);
    lemma_terminated_read(ts, pos + 2, value);
}

/// Where a call stands as a statement, it is read from after the name.
pub proof fn lemma_call_read(ts: Seq<TokenModel>, pos: int, s: StmtModel)
    requires
        s is Expression,
        writable_statement(s),
        stands(ts, pos, written_statement(s)),
    ensures
        token_at(ts, pos) == Some(TokenModel::Identifier(s->Expression_0->Call_name)),
        call_or_assignment(ts, pos + 1, s->Expression_0->Call_name) == Ok::<_, ParseErrorModel>(
            (s, pos + written_statement(s).len()),
        ),
{
    reveal(call_or_assignment);
    lemma_marks();
    let e = s->Expression_0;
    let name = e->Call_name;
    let args = e->Call_arguments;
    let head = seq![TokenModel::Identifier(name), open_paren()];
    let inner = written_arguments(args);
    let tail = seq![close_paren(), mark(";"@)];
    assert(written(e, 0) == plain(e));
    assert(written_statement(s) =~= head + inner + tail);
    lemma_stands_apart(ts, pos, head + inner, tail);
    lemma_stands_apart(ts, pos, head, inner);
    lemma_stands_at(ts, pos, head, 0);
    lemma_stands_at(ts, pos, head, 1);
    lemma_stands_at(ts, pos + 2 + inner.len(), tail, 0);
    lemma_stands_at(ts, pos + 2 + inner.len(), tail, 1);
    lemma_arguments_read(ts, pos + 2, args);
}

/// Where the head of a function declaration stands before an opening
/// brace, it is read.
pub proof fn lemma_head_read(
    ts: Seq<TokenModel>,
    pos: int,
    name: Seq<char>,
    params: Seq<(Seq<char>, Type)>,
    result: Type,
)
    requires
        forall|i: int| 0 <= i < params.len() ==> !((#[trigger] params[i]).1 is Void),
        stands(ts, pos, written_head(name, params, result)),
        is_punctuation(ts, pos + written_head(name, params, result).len(), "{"@),
    ensures
        function_head(ts, pos) == Ok::<_, ParseErrorModel>(
            ((name, params, result), pos + written_head(name, params, result).len()),
        ),
{
    reveal(function_head);
    lemma_marks();
    lemma_words();
    let head = seq![TokenModel::Identifier(name), open_paren()];
    let inner = written_parameters(params);
    let close = seq![close_paren()];
    let tail = if result is Void {
        Seq::empty()
    } else {
        seq![mark(":"@), type_token(result)]
    };
    lemma_stands_apart(ts, pos, head + inner + close, tail);
    lemma_stands_apart(ts, pos, head + inner, close);
    lemma_stands_apart(ts, pos, head, inner);
    lemma_stands_at(ts, pos, head, 0);
    lemma_stands_at(ts, pos, head, 1);
    lemma_stands_at(ts, pos + 2 + inner.len(), close, 0);
    lemma_parameters_read(ts, pos + 2, params, Seq::empty());
    assert(Seq::<(Seq<char>, Type)>::empty() + params =~= params);
    if !(result is Void) {
        lemma_stands_at(ts, pos + 3 + inner.len(), tail, 0);
        lemma_stands_at(ts, pos + 3 + inner.len(), tail, 1);
    }
}

/// Whether a statement may start with `token`: not with what ends a block
/// or a program, and not with `else`.
pub open spec fn starts_statement(token: TokenModel) -> bool {
    &&& token != mark("}"@)
    &&& token != TokenModel::EOF
    &&& token != keyword("else"@)
}

/// What is written of a statement starts as a statement may.
pub proof fn lemma_statement_starts(s: StmtModel)
    requires
        writable_statement(s),
    ensures
        written_statement(s).len() > 0,
        starts_statement(written_statement(s)[0]),
{
    lemma_marks();
    lemma_words();
    match s {
        StmtModel::Expression(value) => {
            lemma_written_starts(value, 0);
        },
        _ => {},
    }
}

/// Where `croak` or `return` stands with its expression, the expression is
/// read from after the keyword.
pub proof fn lemma_keyword_read(ts: Seq<TokenModel>, pos: int, s: StmtModel)
    requires
        s is Print || s is Return,
        writable_statement(s),
        stands(ts, pos, written_statement(s)),
    ensures
        s matches StmtModel::Print(value) ==> token_at(ts, pos) == Some(keyword("croak"@))
            && terminated(ts, pos + 1) == Ok::<_, ParseErrorModel>(
            (value, pos + written_statement(s).len()),
        ),
        s matches StmtModel::Return(value) ==> token_at(ts, pos) == Some(keyword("return"@))
            && terminated(ts, pos + 1) == Ok::<_, ParseErrorModel>(
            (value, pos + written_statement(s).len()),
        ),
{
    match s {
        StmtModel::Print(value) => {
            let head = seq![keyword("croak"@)];
            let rest = written(value, 0) + seq![mark(";"@)];
            assert(written_statement(s) =~= head + rest);
            lemma_stands_apart(ts, pos, head, rest);
            lemma_stands_at(ts, pos, head, 0);
            lemma_terminated_read(ts, pos + 1, value);
        },
        StmtModel::Return(value) => {
            let head = seq![keyword("return"@)];
            let rest = written(value, 0) + seq![mark(";"@)];
            assert(written_statement(s) =~= head + rest);
            lemma_stands_apart(ts, pos, head, rest);
            lemma_stands_at(ts, pos, head, 0);
            lemma_terminated_read(ts, pos + 1, value);
        },
        _ => {},
    }
}

/// Where a loop stands, it is read.
pub proof fn lemma_while_read(ts: Seq<TokenModel>, pos: int, s: StmtModel)
    requires
        s is While,
        writable_statement(s),
        stands(ts, pos, written_statement(s)),
    ensures
        token_at(ts, pos) == Some(keyword("while"@)),
        while_statement(ts, pos) == Ok::<_, ParseErrorModel>(
            (s, pos + written_statement(s).len()),
        ),
    decreases s, 0int,
{
    lemma_marks();
    let condition = s->While_condition;
    let body = s->While_body;
    let head = seq![keyword("while"@)];
    let test = written(condition, 0);
    let rest = in_braces(body);
    lemma_stands_apart(ts, pos, head + test, rest);
    lemma_stands_apart(ts, pos, head, test);
    lemma_stands_at(ts, pos, head, 0);
    lemma_stands_at(ts, pos + 1 + test.len(), rest, 0);
    lemma_condition_read(ts, pos + 1, condition);
    lemma_braces_read(ts, pos + 1 + test.len(), body);
}

/// Where a conditional stands, and no `else` follows that is not its own,
/// it is read.
pub proof fn lemma_if_read(ts: Seq<TokenModel>, pos: int, s: StmtModel)
    requires
        s is If,
        writable_statement(s),
        stands(ts, pos, written_statement(s)),
        !is_keyword(ts, pos + written_statement(s).len(), "else"@),
    ensures
        token_at(ts, pos) == Some(keyword("if"@)),
        if_statement(ts, pos) == Ok::<_, ParseErrorModel>((s, pos + written_statement(s).len())),
    decreases s, 0int,
{
    lemma_marks();
    let condition = s->If_condition;
    let then_block = s->If_then_block;
    let else_block = s->If_else_block;
    let head = seq![keyword("if"@)];
    let test = written(condition, 0);
    let then_part = in_braces(then_block);
    let else_part = match else_block {
        Some(block) => seq![keyword("else"@)] + in_braces(block),
        None => Seq::empty(),
    };
    lemma_stands_apart(ts, pos, head + test + then_part, else_part);
    lemma_stands_apart(ts, pos, head + test, then_part);
    lemma_stands_apart(ts, pos, head, test);
    lemma_stands_at(ts, pos, head, 0);
    lemma_stands_at(ts, pos + 1 + test.len(), then_part, 0);
    lemma_condition_read(ts, pos + 1, condition);
    lemma_braces_read(ts, pos + 1 + test.len(), then_block);
    let after = pos + 1 + test.len() + then_part.len();
    match else_block {
        Some(block) => {
            lemma_stands_apart(ts, after, seq![keyword("else"@)], in_braces(block));
            lemma_stands_at(ts, after, seq![keyword("else"@)], 0);
            lemma_braces_read(ts, after + 1, block);
        },
        None => {},
    }
}

/// Where a function declaration stands, it is read.
pub proof fn lemma_function_read(ts: Seq<TokenModel>, pos: int, s: StmtModel)
    requires
        s is FunctionDeclaration,
        writable_statement(s),
        stands(ts, pos, written_statement(s)),
    ensures
        token_at(ts, pos) == Some(keyword("func"@)),
        function_declaration(ts, pos) == Ok::<_, ParseErrorModel>(
            (s, pos + written_statement(s).len()),
        ),
    decreases s, 0int,
{
    lemma_marks();
    let name = s->FunctionDeclaration_name;
    let params = s->FunctionDeclaration_params;
    let return_type = s->FunctionDeclaration_return_type;
    let body = s->FunctionDeclaration_body;
    let head = seq![keyword("func"@)];
    let signature = written_head(name, params, return_type);
    let rest = in_braces(body);
    lemma_stands_apart(ts, pos, head + signature, rest);
    lemma_stands_apart(ts, pos, head, signature);
    lemma_stands_at(ts, pos, head, 0);
    lemma_stands_at(ts, pos + 1 + signature.len(), rest, 0);
    lemma_head_read(ts, pos + 1, name, params, return_type);
    lemma_braces_read(ts, pos + 1 + signature.len(), body);
}

/// What each token that starts a statement says of it.
pub proof fn lemma_starts()
    ensures
        start_of(Some(keyword("let"@))) == Start::<Seq<char>>::Declaration,
        start_of(Some(keyword("croak"@))) == Start::<Seq<char>>::Print,
        start_of(Some(keyword("return"@))) == Start::<Seq<char>>::Return,
        start_of(Some(keyword("while"@))) == Start::<Seq<char>>::While,
        start_of(Some(keyword("if"@))) == Start::<Seq<char>>::If,
        start_of(Some(keyword("func"@))) == Start::<Seq<char>>::Function,
        start_of(Some(mark("{"@))) == Start::<Seq<char>>::Block,
{
    lemma_words();
}

/// Where the tokens written for a statement stand, and no `else` follows
/// them, the statement is read.
pub proof fn lemma_statement_read(ts: Seq<TokenModel>, pos: int, s: StmtModel)
    requires
        writable_statement(s),
        stands(ts, pos, written_statement(s)),
        !is_keyword(ts, pos + written_statement(s).len(), "else"@),
    ensures
        statement(ts, pos) == Ok::<_, ParseErrorModel>(
            (Some(s), pos + written_statement(s).len()),
        ),
    decreases s, 1int,
{
    lemma_starts();
    match s {
        StmtModel::Declaration { name, value, declared } => {
            lemma_declaration_read(ts, pos, s);
        },
        StmtModel::Assignment { name, value } => {
            lemma_assignment_read(ts, pos, s);
        },
        StmtModel::Expression(value) => {
            lemma_call_read(ts, pos, s);
        },
        StmtModel::Print(value) => {
            lemma_keyword_read(ts, pos, s);
        },
        StmtModel::Return(value) => {
            lemma_keyword_read(ts, pos, s);
        },
        StmtModel::Block(body) => {
            lemma_braces_read(ts, pos, body);
        },
        StmtModel::While { condition, body } => {
            lemma_while_read(ts, pos, s);
        },
        StmtModel::If { condition, then_block, else_block } => {
            lemma_if_read(ts, pos, s);
        },
        StmtModel::FunctionDeclaration { name, params, return_type, body } => {
            lemma_function_read(ts, pos, s);
        },
    }
}

/// Where a block stands in its braces, it is read.
pub proof fn lemma_braces_read(ts: Seq<TokenModel>, pos: int, body: Seq<StmtModel>)
    requires
        writable_statements(body),
        stands(ts, pos, in_braces(body)),
    ensures
        token_at(ts, pos) == Some(mark("{"@)),
        braced(ts, pos) == Ok::<_, ParseErrorModel>((body, pos + in_braces(body).len())),
    decreases body, 3int,
{
    lemma_marks();
    let inner = written_statements(body);
    lemma_stands_apart(ts, pos, seq![mark("{"@)] + inner, seq![mark("}"@)]);
    lemma_stands_apart(ts, pos, seq![mark("{"@)], inner);
    lemma_stands_at(ts, pos, seq![mark("{"@)], 0);
    lemma_stands_at(ts, pos + 1 + inner.len(), seq![mark("}"@)], 0);
    lemma_statements_read(ts, pos + 1, body, Seq::empty());
    assert(Seq::<StmtModel>::empty() + body =~= body);
}

/// Where statements stand before a closing brace, they are read. `read`
/// holds the statements before.
pub proof fn lemma_statements_read(
    ts: Seq<TokenModel>,
    pos: int,
    body: Seq<StmtModel>,
    read: Seq<StmtModel>,
)
    requires
        writable_statements(body),
        stands(ts, pos, written_statements(body)),
        is_punctuation(ts, pos + written_statements(body).len(), "}"@),
    ensures
        block(ts, pos, read) == Ok::<_, ParseErrorModel>(
            (read + body, pos + written_statements(body).len()),
        ),
    decreases body, 2int,
{
    lemma_marks();
    lemma_words();
    if body.len() == 0 {
        assert(read + body =~= read);
    } else {
        let first = written_statement(body[0]);
        let others = body.drop_first();
        lemma_stands_apart(ts, pos, first, written_statements(others));
        lemma_statement_starts(body[0]);
        lemma_stands_at(ts, pos, first, 0);
        assert forall|i: int| 0 <= i < others.len() implies writable_statement(
            #[trigger] others[i],
        ) by {
            assert(others[i] == body[i + 1]);
        }
        if others.len() > 0 {
            lemma_followed(ts, pos + first.len(), others);
        }
        lemma_statement_read(ts, pos, body[0]);
        lemma_statements_read(ts, pos + first.len(), others, read.push(body[0]));
        assert(read.push(body[0]) + others =~= read + body);
    }
}

/// Where statements stand, the first token is none that ends a block or a
/// program, and not `else`.
pub proof fn lemma_followed(ts: Seq<TokenModel>, pos: int, statements: Seq<StmtModel>)
    requires
        writable_statements(statements),
        stands(ts, pos, written_statements(statements)),
        statements.len() > 0,
    ensures
        token_at(ts, pos) matches Some(token) && starts_statement(token),
{
    let first = written_statement(statements[0]);
    lemma_statement_starts(statements[0]);
    lemma_stands_apart(ts, pos, first, written_statements(statements.drop_first()));
    lemma_stands_at(ts, pos, first, 0);
}

/// Where statements stand before the end marker, they are read as a
/// program. `read` holds the statements before.
pub proof fn lemma_program_read(
    ts: Seq<TokenModel>,
    pos: int,
    body: Seq<StmtModel>,
    read: Seq<StmtModel>,
)
    requires
        writable_statements(body),
        stands(ts, pos, written_statements(body)),
        token_at(ts, pos + written_statements(body).len()) == Some(TokenModel::EOF),
    ensures
        program(ts, pos, read) == Ok::<_, ParseErrorModel>(
            (read + body, pos + written_statements(body).len()),
        ),
    decreases body.len(),
{
    lemma_marks();
    lemma_words();
    if body.len() == 0 {
        assert(read + body =~= read);
    } else {
        let first = written_statement(body[0]);
        let others = body.drop_first();
        lemma_stands_apart(ts, pos, first, written_statements(others));
        lemma_statement_starts(body[0]);
        assert forall|i: int| 0 <= i < others.len() implies writable_statement(
            #[trigger] others[i],
        ) by {
            assert(others[i] == body[i + 1]);
        }
        if others.len() > 0 {
            lemma_followed(ts, pos + first.len(), others);
        }
        lemma_statement_read(ts, pos, body[0]);
        lemma_program_read(ts, pos + first.len(), others, read.push(body[0]));
        assert(read.push(body[0]) + others =~= read + body);
    }
}

/// A program that is written down and closed with the end marker is read
/// back as it was.
pub proof fn lemma_read_back(body: Seq<StmtModel>)
    requires
        writable_statements(body),
    ensures
        program(written_statements(body).push(TokenModel::EOF), 0, Seq::empty()) == Ok::<
            _,
            ParseErrorModel,
        >((body, written_statements(body).len() as int)),
{
    let written = written_statements(body);
    let ts = written.push(TokenModel::EOF);
    assert(ts.subrange(0, written.len() as int) =~= written);
    lemma_program_read(ts, 0, body, Seq::empty());
    assert(Seq::<StmtModel>::empty() + body =~= body);
}

} // verus!
