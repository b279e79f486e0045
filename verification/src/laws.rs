//! Laws of the interpreter, proved from the definitions in `semantics`.

use vstd::prelude::*;
use crate::interpreter::{RuntimeFault, Value};
use crate::parser::Type;
use crate::semantics::{
    assign, bind, condition, eval, exec, exec_block, exec_while, quotient, run, Fault, Flow,
    Limits, Machine, ScopeModel,
};
use crate::syntax::{ExprModel, StmtModel};
use crate::typing::{check_block, fresh, Context};

verus! {

/// An expression built from number literals and `+`, `-`, `*`, `/` only.
pub open spec fn is_arithmetic(e: ExprModel) -> bool
    decreases e,
{
    match e {
        ExprModel::Number(_) => true,
        ExprModel::Binary { left, operator, right } => {
            &&& operator == "+"@ || operator == "-"@ || operator == "*"@ || operator == "/"@
            &&& is_arithmetic(*left)
            &&& is_arithmetic(*right)
        },
        _ => false,
    }
}

/// What an operator of arithmetic gives on two integers; the quotient is
/// rounded towards zero.
pub open spec fn combine(operator: Seq<char>, a: int, b: int) -> int {
    if operator == "+"@ {
        a + b
    } else if operator == "-"@ {
        a - b
    } else if operator == "*"@ {
        a * b
    } else {
        quotient(a, b)
    }
}

/// Whether an operator of arithmetic is the division.
pub open spec fn divides(operator: Seq<char>) -> bool {
    operator != "+"@ && operator != "-"@ && operator != "*"@
}

/// The value of an arithmetic expression in the integers.
pub open spec fn integer_value(e: ExprModel) -> int
    decreases e,
{
    match e {
        ExprModel::Number(n) => n as int,
        ExprModel::Binary { left, operator, right } => combine(
            operator,
            integer_value(*left),
            integer_value(*right),
        ),
        _ => 0,
    }
}

/// No part of the expression divides by zero, and the value of every part
/// fits in 32 bits.
pub open spec fn in_range(e: ExprModel) -> bool
    decreases e,
{
    match e {
        ExprModel::Number(_) => true,
        ExprModel::Binary { left, operator, right } => {
            &&& in_range(*left)
            &&& in_range(*right)
            &&& divides(operator) ==> integer_value(*right) != 0
            &&& i32::MIN <= integer_value(e) <= i32::MAX
        },
        _ => false,
    }
}

/// On an expression of number literals, `+`, `-`, `*` and `/`, in which no
/// part divides by zero or leaves the 32-bit range, the interpreter computes
/// what integer arithmetic with truncating division gives, and changes
/// nothing.
pub proof fn lemma_arithmetic(m: Machine, e: ExprModel, depth: nat, limits: Limits)
    requires
        is_arithmetic(e),
        in_range(e),
    ensures
        eval(m, e, depth, limits) == (m, Ok::<Value, Fault>(Value::Number(integer_value(e) as i32))),
    decreases e,
{
    match e {
        ExprModel::Binary { left, operator, right } => {
            lemma_arithmetic(m, *left, depth, limits);
            lemma_arithmetic(m, *right, depth, limits);
        },
        _ => {},
    }
}

/// On an expression of number literals, `+`, `-`, `*` and `/` the
/// interpreter changes nothing, and it faults, with a division by zero or
/// an overflow, exactly if some part divides by zero or leaves the 32-bit
/// range.
pub proof fn lemma_arithmetic_faults(m: Machine, e: ExprModel, depth: nat, limits: Limits)
    requires
        is_arithmetic(e),
    ensures
        eval(m, e, depth, limits).0 == m,
        eval(m, e, depth, limits).1 is Ok <==> in_range(e),
        !in_range(e) ==> eval(m, e, depth, limits).1 == Err::<Value, Fault>(
            RuntimeFault::DivisionByZero,
        ) || eval(m, e, depth, limits).1 == Err::<Value, Fault>(RuntimeFault::Overflow),
    decreases e,
{
    match e {
        ExprModel::Binary { left, operator, right } => {
            lemma_arithmetic_faults(m, *left, depth, limits);
            lemma_arithmetic_faults(m, *right, depth, limits);
            if in_range(*left) {
                lemma_arithmetic(m, *left, depth, limits);
            }
            if in_range(*right) {
                lemma_arithmetic(m, *right, depth, limits);
            }
        },
        _ => {},
    }
}

/// Checking and running a program from fresh environments gives the same
/// verdict, the same output and the same scopes every time: nothing but the
/// program and the limits goes into them.
pub proof fn lemma_rerun(
    first_context: Context,
    second_context: Context,
    first: Machine,
    second: Machine,
    program: Seq<StmtModel>,
    limits: Limits,
)
    requires
        first_context == fresh(),
        second_context == fresh(),
        first == Machine::fresh(),
        second == Machine::fresh(),
    ensures
        check_block(first_context, program) == check_block(second_context, program),
        run(first, program, limits) == run(second, program, limits),
        run(first, program, limits).0.output == run(second, program, limits).0.output,
        run(first, program, limits).0.scopes == run(second, program, limits).0.scopes,
{
}

/// The binding of `name` in a scope, if there is one.
pub open spec fn binding(scope: ScopeModel, name: Seq<char>) -> Option<Value> {
    if scope.contains_key(name) {
        Some(scope[name])
    } else {
        None
    }
}

/// `after` has as many scopes as `before`, and each holds at least the names
/// that it held before.
pub open spec fn grown(before: Seq<ScopeModel>, after: Seq<ScopeModel>) -> bool {
    &&& after.len() == before.len()
    &&& forall|i: int, name: Seq<char>|
        0 <= i < before.len() && #[trigger] before[i].contains_key(name) ==> after[i].contains_key(
            name,
        )
}

/// Some scope at level `k` or further in holds `name`.
pub open spec fn held_from(scopes: Seq<ScopeModel>, name: Seq<char>, k: int) -> bool {
    exists|j: int| holds_at(scopes, name, k, j)
}

/// The scope at level `j`, which is `k` or further in, holds `name`.
pub open spec fn holds_at(scopes: Seq<ScopeModel>, name: Seq<char>, k: int, j: int) -> bool {
    0 <= j && k <= j < scopes.len() && scopes[j].contains_key(name)
}

/// The scopes below level `k` bind `name` in `after` as they did in
/// `before`.
pub open spec fn kept_below(
    before: Seq<ScopeModel>,
    after: Seq<ScopeModel>,
    name: Seq<char>,
    k: int,
) -> bool {
    forall|i: int|
        0 <= i < k && i < before.len() && i < after.len() ==> binding(#[trigger] after[i], name)
            == binding(before[i], name)
}

/// No scope is lost and no name leaves its scope; and if `name` is held at
/// level `k` or further in, the scopes below `k` bind it as before.
pub open spec fn shadow_kept(
    before: Seq<ScopeModel>,
    after: Seq<ScopeModel>,
    name: Seq<char>,
    k: int,
) -> bool {
    &&& grown(before, after)
    &&& held_from(before, name, k) ==> kept_below(before, after, name, k)
}

proof fn lemma_chain(
    a: Seq<ScopeModel>,
    b: Seq<ScopeModel>,
    c: Seq<ScopeModel>,
    name: Seq<char>,
    k: int,
)
    requires
        shadow_kept(a, b, name, k),
        shadow_kept(b, c, name, k),
    ensures
        shadow_kept(a, c, name, k),
{
    assert forall|i: int, held: Seq<char>|
        0 <= i < a.len() && #[trigger] a[i].contains_key(held) implies c[i].contains_key(held) by {
        assert(b[i].contains_key(held));
    }
    if held_from(a, name, k) {
        let j = choose|j: int| holds_at(a, name, k, j);
        assert(a[j].contains_key(name));
        assert(holds_at(b, name, k, j));
        assert forall|i: int| 0 <= i < k && i < a.len() && i < c.len() implies binding(
            #[trigger] c[i],
            name,
        ) == binding(a[i], name) by {
            assert(binding(b[i], name) == binding(a[i], name));
        }
    }
}

/// What was entered on top of `before` and then left again.
proof fn lemma_entered_and_left(
    before: Seq<ScopeModel>,
    inner: Seq<ScopeModel>,
    name: Seq<char>,
    k: int,
)
    requires
        shadow_kept(before.push(Map::empty()), inner, name, k),
    ensures
        shadow_kept(before, inner.drop_last(), name, k),
{
    let entered = before.push(Map::empty());
    let after = inner.drop_last();
    assert forall|i: int, held: Seq<char>|
        0 <= i < before.len() && #[trigger] before[i].contains_key(
            held,
        ) implies after[i].contains_key(held) by {
        assert(entered[i].contains_key(held));
    }
    if held_from(before, name, k) {
        let j = choose|j: int| holds_at(before, name, k, j);
        assert(entered[j] == before[j]);
        assert(holds_at(entered, name, k, j));
        assert forall|i: int| 0 <= i < k && i < before.len() && i < after.len() implies binding(
            #[trigger] after[i],
            name,
        ) == binding(before[i], name) by {
            assert(binding(inner[i], name) == binding(entered[i], name));
        }
    }
}

/// Declaring changes the innermost scope only, and adds to it.
proof fn lemma_declared(
    before: Seq<ScopeModel>,
    declared: Seq<char>,
    value: Value,
    name: Seq<char>,
    k: int,
)
    ensures
        shadow_kept(before, crate::semantics::declare(before, declared, value), name, k),
{
    let after = crate::semantics::declare(before, declared, value);
    if before.len() > 0 {
        assert forall|i: int, held: Seq<char>|
            0 <= i < before.len() && #[trigger] before[i].contains_key(
                held,
            ) implies after[i].contains_key(held) by {}
        if held_from(before, name, k) {
            assert forall|i: int| 0 <= i < k && i < before.len() && i < after.len() implies binding(
                #[trigger] after[i],
                name,
            ) == binding(before[i], name) by {
                assert(i < before.len() - 1);
            }
        }
    }
}

/// Assigning changes one scope, the innermost that holds the name, and the
/// binding of that name only.
pub proof fn lemma_assign_site(scopes: Seq<ScopeModel>, name: Seq<char>, value: Value) -> (t: int)
    requires
        assign(scopes, name, value) is Some,
    ensures
        0 <= t < scopes.len(),
        scopes[t].contains_key(name),
        forall|j: int| t < j < scopes.len() ==> !(#[trigger] scopes[j]).contains_key(name),
        assign(scopes, name, value) == Some(scopes.update(t, scopes[t].insert(name, value))),
    decreases scopes.len(),
{
    if scopes.last().contains_key(name) {
        let t = scopes.len() - 1;
        assert(scopes.drop_last().push(scopes.last().insert(name, value)) =~= scopes.update(
            t,
            scopes[t].insert(name, value),
        ));
        t
    } else {
        let t = lemma_assign_site(scopes.drop_last(), name, value);
        assert(scopes.drop_last().update(t, scopes[t].insert(name, value)).push(scopes.last())
            =~= scopes.update(t, scopes[t].insert(name, value)));
        assert forall|j: int| t < j < scopes.len() implies !(#[trigger] scopes[j]).contains_key(
            name,
        ) by {
            if j < scopes.len() - 1 {
                assert(scopes.drop_last()[j] == scopes[j]);
            }
        }
        t
    }
}

proof fn lemma_assigned(
    before: Seq<ScopeModel>,
    assigned: Seq<char>,
    value: Value,
    name: Seq<char>,
    k: int,
)
    requires
        assign(before, assigned, value) is Some,
    ensures
        shadow_kept(before, assign(before, assigned, value)->0, name, k),
{
    let t = lemma_assign_site(before, assigned, value);
    let after = assign(before, assigned, value)->0;
    assert forall|i: int, held: Seq<char>|
        0 <= i < before.len() && #[trigger] before[i].contains_key(
            held,
        ) implies after[i].contains_key(held) by {}
    if held_from(before, name, k) {
        let j = choose|j: int| holds_at(before, name, k, j);
        assert forall|i: int| 0 <= i < k && i < before.len() && i < after.len() implies binding(
            #[trigger] after[i],
            name,
        ) == binding(before[i], name) by {
            if assigned == name {
                // The scope that changes lies at `j` or further in.
                assert(before[j].contains_key(name));
                assert(t >= j);
            }
        }
    }
}

/// Evaluating an expression leaves every scope as it was: a function that
/// is called works on a scope of its own and cannot reach those of its
/// caller, whatever it declares or assigns.
pub proof fn lemma_eval_keeps_scopes(m: Machine, e: ExprModel, depth: nat, limits: Limits)
    ensures
        eval(m, e, depth, limits).0.scopes == m.scopes,
    decreases e, 0nat,
{
    match e {
        ExprModel::Binary { left, operator, right } => {
            lemma_eval_keeps_scopes(m, *left, depth, limits);
            let m1 = eval(m, *left, depth, limits).0;
            lemma_eval_keeps_scopes(m1, *right, depth, limits);
        },
        ExprModel::Call { name, arguments } => {
            if m.functions.contains_key(name) {
                let function = m.functions[name];
                if arguments.len() == function.params.len() && depth != 0 {
                    lemma_bind_keeps_outer_scopes(
                        m.enter(),
                        function.params,
                        arguments,
                        depth,
                        limits,
                    );
                    assert(m.enter().scopes.drop_last() =~= m.scopes);
                }
            }
        },
        _ => {},
    }
}

/// Binding the arguments of a call changes the innermost scope only.
pub proof fn lemma_bind_keeps_outer_scopes(
    m: Machine,
    params: Seq<(Seq<char>, Type)>,
    arguments: Seq<ExprModel>,
    depth: nat,
    limits: Limits,
)
    requires
        m.scopes.len() >= 1,
    ensures
        bind(m, params, arguments, depth, limits).0.scopes.len() == m.scopes.len(),
        bind(m, params, arguments, depth, limits).0.scopes.drop_last() == m.scopes.drop_last(),
    decreases arguments, 1nat,
{
    if arguments.len() != 0 && params.len() != 0 {
        lemma_eval_keeps_scopes(m, arguments[0], depth, limits);
        let (m1, value) = eval(m, arguments[0], depth, limits);
        if let Ok(v) = value {
            let m2 = m1.declare(params[0].0, v);
            assert(m2.scopes.drop_last() =~= m.scopes.drop_last());
            lemma_bind_keeps_outer_scopes(
                m2,
                params.drop_first(),
                arguments.drop_first(),
                depth,
                limits,
            );
        }
    }
}

proof fn lemma_condition_keeps_scopes(m: Machine, e: ExprModel, depth: nat, limits: Limits)
    ensures
        condition(m, e, depth, limits).0.scopes == m.scopes,
{
    lemma_eval_keeps_scopes(m, e, depth, limits);
}

proof fn lemma_same(scopes: Seq<ScopeModel>, name: Seq<char>, k: int)
    ensures
        shadow_kept(scopes, scopes, name, k),
{
}

/// A statement loses no scope and takes no name out of its scope; and where
/// `name` is held at level `k` or further in, it leaves the bindings of
/// `name` below `k` as they were.
pub proof fn lemma_exec_keeps_shadowed(
    m: Machine,
    s: StmtModel,
    depth: nat,
    limits: Limits,
    name: Seq<char>,
    k: int,
)
    ensures
        shadow_kept(m.scopes, exec(m, s, depth, limits).0.scopes, name, k),
    decreases s, limits.iterations + 1,
{
    lemma_same(m.scopes, name, k);
    match s {
        StmtModel::Return(e) => {
            lemma_eval_keeps_scopes(m, e, depth, limits);
        },
        StmtModel::Assignment { name: assigned, value } => {
            lemma_eval_keeps_scopes(m, value, depth, limits);
            let (m1, result) = eval(m, value, depth, limits);
            if let Ok(v) = result {
                if assign(m1.scopes, assigned, v) is Some {
                    lemma_assigned(m1.scopes, assigned, v, name, k);
                }
            }
        },
        StmtModel::Declaration { name: declared, value, declared: _ } => {
            lemma_eval_keeps_scopes(m, value, depth, limits);
            let (m1, result) = eval(m, value, depth, limits);
            if let Ok(v) = result {
                lemma_declared(m1.scopes, declared, v, name, k);
            }
        },
        StmtModel::Print(e) => {
            lemma_eval_keeps_scopes(m, e, depth, limits);
        },
        StmtModel::Expression(e) => {
            lemma_eval_keeps_scopes(m, e, depth, limits);
        },
        StmtModel::While { condition: test, body } => {
            lemma_exec_while_keeps_shadowed(
                m.enter(),
                s,
                depth,
                limits,
                limits.iterations,
                name,
                k,
            );
            let inner = exec_while(m.enter(), s, depth, limits, limits.iterations).0;
            lemma_entered_and_left(m.scopes, inner.scopes, name, k);
        },
        StmtModel::Block(body) => {
            lemma_exec_block_keeps_shadowed(m.enter(), body, depth, limits, name, k);
            let inner = exec_block(m.enter(), body, depth, limits).0;
            lemma_entered_and_left(m.scopes, inner.scopes, name, k);
        },
        StmtModel::FunctionDeclaration { name: _, params, return_type, body } => {},
        StmtModel::If { condition: test, then_block, else_block } => {
            lemma_condition_keeps_scopes(m, test, depth, limits);
            let (m1, go) = condition(m, test, depth, limits);
            match go {
                Ok(true) => {
                    lemma_exec_block_keeps_shadowed(m1, then_block, depth, limits, name, k);
                },
                Ok(false) => {
                    if let Some(block) = else_block {
                        lemma_exec_block_keeps_shadowed(m1, block, depth, limits, name, k);
                    }
                },
                _ => {},
            }
        },
    }
}

/// As `lemma_exec_keeps_shadowed`, for a run of statements.
pub proof fn lemma_exec_block_keeps_shadowed(
    m: Machine,
    statements: Seq<StmtModel>,
    depth: nat,
    limits: Limits,
    name: Seq<char>,
    k: int,
)
    ensures
        shadow_kept(m.scopes, exec_block(m, statements, depth, limits).0.scopes, name, k),
    decreases statements, 0nat,
{
    lemma_same(m.scopes, name, k);
    if statements.len() != 0 {
        lemma_exec_keeps_shadowed(m, statements[0], depth, limits, name, k);
        let (m1, flow) = exec(m, statements[0], depth, limits);
        if flow == Ok::<Flow, Fault>(Flow::Next) {
            lemma_exec_block_keeps_shadowed(m1, statements.drop_first(), depth, limits, name, k);
            let m2 = exec_block(m1, statements.drop_first(), depth, limits).0;
            lemma_chain(m.scopes, m1.scopes, m2.scopes, name, k);
        }
    }
}

/// As `lemma_exec_keeps_shadowed`, for the rounds of a loop.
pub proof fn lemma_exec_while_keeps_shadowed(
    m: Machine,
    s: StmtModel,
    depth: nat,
    limits: Limits,
    rounds: nat,
    name: Seq<char>,
    k: int,
)
    ensures
        shadow_kept(m.scopes, exec_while(m, s, depth, limits, rounds).0.scopes, name, k),
    decreases s, rounds,
{
    lemma_same(m.scopes, name, k);
    match s {
        StmtModel::While { condition: test, body } => {
            lemma_condition_keeps_scopes(m, test, depth, limits);
            let (m1, go) = condition(m, test, depth, limits);
            if go == Ok::<bool, Fault>(true) && rounds != 0 {
                lemma_exec_block_keeps_shadowed(m1, body, depth, limits, name, k);
                let (m2, flow) = exec_block(m1, body, depth, limits);
                if flow == Ok::<Flow, Fault>(Flow::Next) {
                    lemma_exec_while_keeps_shadowed(
                        m2,
                        s,
                        depth,
                        limits,
                        (rounds - 1) as nat,
                        name,
                        k,
                    );
                    let m3 = exec_while(m2, s, depth, limits, (rounds - 1) as nat).0;
                    lemma_chain(m.scopes, m2.scopes, m3.scopes, name, k);
                }
            }
        },
        _ => {},
    }
}

/// A variable declared in a block hides a variable of the same name
/// outside of it: whatever the rest of the block does, each scope around the
/// block binds the name after the block as it did before.
pub proof fn lemma_shadowing_in_block(
    m: Machine,
    name: Seq<char>,
    value: ExprModel,
    declared: Option<Type>,
    rest: Seq<StmtModel>,
    depth: nat,
    limits: Limits,
)
    ensures
        ({
            let block = StmtModel::Block(
                seq![StmtModel::Declaration { name, value, declared }] + rest,
            );
            let after = exec(m, block, depth, limits).0;
            &&& after.scopes.len() == m.scopes.len()
            &&& forall|i: int|
                0 <= i < m.scopes.len() ==> binding(#[trigger] after.scopes[i], name) == binding(
                    m.scopes[i],
                    name,
                )
        }),
{
    let declaration = StmtModel::Declaration { name, value, declared };
    let body = seq![declaration] + rest;
    assert(body[0] == declaration);
    assert(body.drop_first() =~= rest);
    lemma_declaration_then_rest(m.enter(), name, value, declared, body, depth, limits);
    assert(m.enter().scopes.drop_last() =~= m.scopes);
}

/// In a scope that was entered for them, a declaration of `name` and the
/// statements after it leave the bindings of `name` in the scopes around as
/// they were.
proof fn lemma_declaration_then_rest(
    inner: Machine,
    name: Seq<char>,
    value: ExprModel,
    declared: Option<Type>,
    body: Seq<StmtModel>,
    depth: nat,
    limits: Limits,
)
    requires
        inner.scopes.len() >= 1,
        body.len() >= 1,
        body[0] == (StmtModel::Declaration { name, value, declared }),
    ensures
        ({
            let after = exec_block(inner, body, depth, limits).0;
            &&& grown(inner.scopes, after.scopes)
            &&& kept_below(inner.scopes, after.scopes, name, inner.scopes.len() - 1)
        }),
{
    let k = inner.scopes.len() - 1;
    lemma_eval_keeps_scopes(inner, value, depth, limits);
    let (m1, result) = eval(inner, value, depth, limits);
    if let Ok(v) = result {
        let m2 = m1.declare(name, v);
        lemma_declared(m1.scopes, name, v, name, k);
        assert(m2.scopes[k].contains_key(name));
        assert(holds_at(m2.scopes, name, k, k));
        lemma_exec_block_keeps_shadowed(m2, body.drop_first(), depth, limits, name, k);
        let m3 = exec_block(m2, body.drop_first(), depth, limits).0;
        assert(exec(inner, body[0], depth, limits) == (m2, Ok::<Flow, Fault>(Flow::Next)));
        assert(exec_block(inner, body, depth, limits).0 == m3);
        assert(grown(m1.scopes, m2.scopes));
        assert(grown(m2.scopes, m3.scopes));
        assert(m3.scopes.len() == inner.scopes.len());
        assert forall|i: int| 0 <= i < k implies binding(#[trigger] m2.scopes[i], name)
            == binding(inner.scopes[i], name) by {
            assert(m2.scopes[i] == m1.scopes[i]);
        }
        assert forall|i: int, held: Seq<char>|
            0 <= i < inner.scopes.len() && #[trigger] inner.scopes[i].contains_key(
                held,
            ) implies m3.scopes[i].contains_key(held) by {
            assert(m2.scopes[i].contains_key(held));
        }
        assert forall|i: int|
            0 <= i < k && i < inner.scopes.len() && i < m3.scopes.len() implies binding(
            #[trigger] m3.scopes[i],
            name,
        ) == binding(inner.scopes[i], name) by {
            assert(binding(m2.scopes[i], name) == binding(inner.scopes[i], name));
        }
    } else {
        assert(exec(inner, body[0], depth, limits).0 == m1);
        assert(exec(inner, body[0], depth, limits).1 is Err);
        assert(exec_block(inner, body, depth, limits).0 == m1);
    }
}

proof fn lemma_rounds_with_declaration(
    inner: Machine,
    s: StmtModel,
    name: Seq<char>,
    depth: nat,
    limits: Limits,
    rounds: nat,
)
    requires
        inner.scopes.len() >= 1,
        s is While,
        s->While_body.len() >= 1,
        s->While_body[0] is Declaration,
        s->While_body[0]->Declaration_name == name,
    ensures
        ({
            let after = exec_while(inner, s, depth, limits, rounds).0;
            &&& grown(inner.scopes, after.scopes)
            &&& kept_below(inner.scopes, after.scopes, name, inner.scopes.len() - 1)
        }),
    decreases rounds,
{
    let k = inner.scopes.len() - 1;
    let test = s->While_condition;
    let body = s->While_body;
    lemma_condition_keeps_scopes(inner, test, depth, limits);
    let (m1, go) = condition(inner, test, depth, limits);
    if go == Ok::<bool, Fault>(true) && rounds != 0 {
        lemma_declaration_then_rest(
            m1,
            name,
            body[0]->Declaration_value,
            body[0]->Declaration_declared,
            body,
            depth,
            limits,
        );
        let (m2, flow) = exec_block(m1, body, depth, limits);
        if flow == Ok::<Flow, Fault>(Flow::Next) {
            lemma_rounds_with_declaration(m2, s, name, depth, limits, (rounds - 1) as nat);
            let m3 = exec_while(m2, s, depth, limits, (rounds - 1) as nat).0;
            assert forall|i: int, held: Seq<char>|
                0 <= i < inner.scopes.len() && #[trigger] inner.scopes[i].contains_key(
                    held,
                ) implies m3.scopes[i].contains_key(held) by {
                assert(m2.scopes[i].contains_key(held));
            }
            assert forall|i: int|
                0 <= i < k && i < inner.scopes.len() && i < m3.scopes.len() implies binding(
                #[trigger] m3.scopes[i],
                name,
            ) == binding(inner.scopes[i], name) by {
                assert(binding(m2.scopes[i], name) == binding(inner.scopes[i], name));
            }
        }
    }
}

/// A variable declared at the start of the body of a loop hides a variable
/// of the same name outside of the loop: however often the body runs and
/// whatever the rest of it does, each scope around the loop binds the name
/// after the loop as it did before.
pub proof fn lemma_shadowing_in_loop(
    m: Machine,
    test: ExprModel,
    name: Seq<char>,
    value: ExprModel,
    declared: Option<Type>,
    rest: Seq<StmtModel>,
    depth: nat,
    limits: Limits,
)
    ensures
        ({
            let repeated = StmtModel::While {
                condition: test,
                body: seq![StmtModel::Declaration { name, value, declared }] + rest,
            };
            let after = exec(m, repeated, depth, limits).0;
            &&& after.scopes.len() == m.scopes.len()
            &&& forall|i: int|
                0 <= i < m.scopes.len() ==> binding(#[trigger] after.scopes[i], name) == binding(
                    m.scopes[i],
                    name,
                )
        }),
{
    let declaration = StmtModel::Declaration { name, value, declared };
    let body = seq![declaration] + rest;
    let repeated = StmtModel::While { condition: test, body };
    assert(body[0] == declaration);
    lemma_rounds_with_declaration(m.enter(), repeated, name, depth, limits, limits.iterations);
    assert(m.enter().scopes.drop_last() =~= m.scopes);
}

} // verus!
