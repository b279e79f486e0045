//! The limits on the nesting of calls and on the rounds of a loop do not
//! change what a program does: a run that ends without a fault for one of
//! them ends the same under any wider limits.

use vstd::prelude::*;
use crate::interpreter::RuntimeFault;
use crate::parser::Type;
use crate::semantics::{
    bind, condition, eval, exec, exec_block, exec_while, run, Fault, Flow, Limits, Machine,
};
use crate::syntax::{ExprModel, StmtModel};

verus! {

/// The outcome is a fault for a limit that was reached.
pub open spec fn hit_limit<T>(outcome: Result<T, Fault>) -> bool {
    match outcome {
        Err(RuntimeFault::CallDepthExceeded) => true,
        Err(RuntimeFault::IterationLimitExceeded) => true,
        _ => false,
    }
}

pub proof fn lemma_eval_under_wider_limits(
    m: Machine,
    e: ExprModel,
    depth: nat,
    limits: Limits,
    wider_depth: nat,
    wider: Limits,
)
    requires
        depth <= wider_depth,
        limits.iterations <= wider.iterations,
        !hit_limit(eval(m, e, depth, limits).1),
    ensures
        eval(m, e, wider_depth, wider) == eval(m, e, depth, limits),
    decreases depth, 0nat, e, 0nat,
{
    match e {
        ExprModel::Binary { left, operator, right } => {
            lemma_eval_under_wider_limits(m, *left, depth, limits, wider_depth, wider);
            let (m1, l) = eval(m, *left, depth, limits);
            if l is Ok {
                lemma_eval_under_wider_limits(m1, *right, depth, limits, wider_depth, wider);
            }
        },
        ExprModel::Call { name, arguments } => {
            if m.functions.contains_key(name) {
                let function = m.functions[name];
                if arguments.len() == function.params.len() && depth != 0 {
                    lemma_bind_under_wider_limits(
                        m.enter(),
                        function.params,
                        arguments,
                        depth,
                        limits,
                        wider_depth,
                        wider,
                    );
                    let (m1, bound) = bind(m.enter(), function.params, arguments, depth, limits);
                    if bound is Ok {
                        lemma_exec_block_under_wider_limits(
                            m1.with_scopes(seq![m1.scopes.last()]),
                            function.body,
                            (depth - 1) as nat,
                            limits,
                            (wider_depth - 1) as nat,
                            wider,
                        );
                    }
                }
            }
        },
        _ => {},
    }
}

pub proof fn lemma_bind_under_wider_limits(
    m: Machine,
    params: Seq<(Seq<char>, Type)>,
    arguments: Seq<ExprModel>,
    depth: nat,
    limits: Limits,
    wider_depth: nat,
    wider: Limits,
)
    requires
        depth <= wider_depth,
        limits.iterations <= wider.iterations,
        !hit_limit(bind(m, params, arguments, depth, limits).1),
    ensures
        bind(m, params, arguments, wider_depth, wider) == bind(m, params, arguments, depth, limits),
    decreases depth, 0nat, arguments, 0nat,
{
    if arguments.len() != 0 && params.len() != 0 {
        lemma_eval_under_wider_limits(m, arguments[0], depth, limits, wider_depth, wider);
        let (m1, value) = eval(m, arguments[0], depth, limits);
        if let Ok(v) = value {
            lemma_bind_under_wider_limits(
                m1.declare(params[0].0, v),
                params.drop_first(),
                arguments.drop_first(),
                depth,
                limits,
                wider_depth,
                wider,
            );
        }
    }
}

pub proof fn lemma_condition_under_wider_limits(
    m: Machine,
    e: ExprModel,
    depth: nat,
    limits: Limits,
    wider_depth: nat,
    wider: Limits,
)
    requires
        depth <= wider_depth,
        limits.iterations <= wider.iterations,
        !hit_limit(condition(m, e, depth, limits).1),
    ensures
        condition(m, e, wider_depth, wider) == condition(m, e, depth, limits),
    decreases depth, 0nat, e, 1nat,
{
    lemma_eval_under_wider_limits(m, e, depth, limits, wider_depth, wider);
}

pub proof fn lemma_exec_block_under_wider_limits(
    m: Machine,
    statements: Seq<StmtModel>,
    depth: nat,
    limits: Limits,
    wider_depth: nat,
    wider: Limits,
)
    requires
        depth <= wider_depth,
        limits.iterations <= wider.iterations,
        !hit_limit(exec_block(m, statements, depth, limits).1),
    ensures
        exec_block(m, statements, wider_depth, wider) == exec_block(m, statements, depth, limits),
    decreases depth, 1nat, statements, 0nat,
{
    if statements.len() != 0 {
        lemma_exec_under_wider_limits(m, statements[0], depth, limits, wider_depth, wider);
        let (m1, flow) = exec(m, statements[0], depth, limits);
        if flow == Ok::<Flow, Fault>(Flow::Next) {
            lemma_exec_block_under_wider_limits(
                m1,
                statements.drop_first(),
                depth,
                limits,
                wider_depth,
                wider,
            );
        }
    }
}

pub proof fn lemma_exec_while_under_wider_limits(
    m: Machine,
    s: StmtModel,
    depth: nat,
    limits: Limits,
    rounds: nat,
    wider_depth: nat,
    wider: Limits,
    wider_rounds: nat,
)
    requires
        depth <= wider_depth,
        limits.iterations <= wider.iterations,
        rounds <= wider_rounds,
        !hit_limit(exec_while(m, s, depth, limits, rounds).1),
    ensures
        exec_while(m, s, wider_depth, wider, wider_rounds) == exec_while(
            m,
            s,
            depth,
            limits,
            rounds,
        ),
    decreases depth, 1nat, s, rounds,
{
    match s {
        StmtModel::While { condition: test, body } => {
            lemma_condition_under_wider_limits(m, test, depth, limits, wider_depth, wider);
            let (m1, go) = condition(m, test, depth, limits);
            if go == Ok::<bool, Fault>(true) {
                lemma_exec_block_under_wider_limits(m1, body, depth, limits, wider_depth, wider);
                let (m2, flow) = exec_block(m1, body, depth, limits);
                if flow == Ok::<Flow, Fault>(Flow::Next) {
                    lemma_exec_while_under_wider_limits(
                        m2,
                        s,
                        depth,
                        limits,
                        (rounds - 1) as nat,
                        wider_depth,
                        wider,
                        (wider_rounds - 1) as nat,
                    );
                }
            }
        },
        _ => {},
    }
}

pub proof fn lemma_exec_under_wider_limits(
    m: Machine,
    s: StmtModel,
    depth: nat,
    limits: Limits,
    wider_depth: nat,
    wider: Limits,
)
    requires
        depth <= wider_depth,
        limits.iterations <= wider.iterations,
        !hit_limit(exec(m, s, depth, limits).1),
    ensures
        exec(m, s, wider_depth, wider) == exec(m, s, depth, limits),
    decreases depth, 1nat, s, limits.iterations + 1,
{
    match s {
        StmtModel::Return(e) => {
            lemma_eval_under_wider_limits(m, e, depth, limits, wider_depth, wider);
        },
        StmtModel::Assignment { name, value } => {
            lemma_eval_under_wider_limits(m, value, depth, limits, wider_depth, wider);
        },
        StmtModel::Declaration { name, value, declared } => {
            lemma_eval_under_wider_limits(m, value, depth, limits, wider_depth, wider);
        },
        StmtModel::Print(e) => {
            lemma_eval_under_wider_limits(m, e, depth, limits, wider_depth, wider);
        },
        StmtModel::Expression(e) => {
            lemma_eval_under_wider_limits(m, e, depth, limits, wider_depth, wider);
        },
        StmtModel::While { condition: test, body } => {
            lemma_exec_while_under_wider_limits(
                m.enter(),
                s,
                depth,
                limits,
                limits.iterations,
                wider_depth,
                wider,
                wider.iterations,
            );
        },
        StmtModel::Block(body) => {
            lemma_exec_block_under_wider_limits(m.enter(), body, depth, limits, wider_depth, wider);
        },
        StmtModel::FunctionDeclaration { name, params, return_type, body } => {},
        StmtModel::If { condition: test, then_block, else_block } => {
            lemma_condition_under_wider_limits(m, test, depth, limits, wider_depth, wider);
            let (m1, go) = condition(m, test, depth, limits);
            match go {
                Ok(true) => {
                    lemma_exec_block_under_wider_limits(
                        m1,
                        then_block,
                        depth,
                        limits,
                        wider_depth,
                        wider,
                    );
                },
                Ok(false) => {
                    if let Some(block) = else_block {
                        lemma_exec_block_under_wider_limits(
                            m1,
                            block,
                            depth,
                            limits,
                            wider_depth,
                            wider,
                        );
                    }
                },
                _ => {},
            }
        },
    }
}

/// A run that ends without calls nesting too deep or a loop running too long
/// ends the same, in the same state, under any limits that are at least as
/// wide.
pub proof fn lemma_run_under_wider_limits(
    m: Machine,
    program: Seq<StmtModel>,
    limits: Limits,
    wider: Limits,
)
    requires
        limits.depth <= wider.depth,
        limits.iterations <= wider.iterations,
        !hit_limit(run(m, program, limits).1),
    ensures
        run(m, program, wider) == run(m, program, limits),
    decreases program.len(),
{
    if program.len() != 0 {
        lemma_exec_under_wider_limits(m, program[0], limits.depth, limits, wider.depth, wider);
        let (m1, flow) = exec(m, program[0], limits.depth, limits);
        if flow is Ok {
            lemma_run_under_wider_limits(m1, program.drop_first(), limits, wider);
        }
    }
}

} // verus!
