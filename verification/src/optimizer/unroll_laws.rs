//! What unrolling a loop means: running the unrolled statements does what running the loop
//! does, but for the loop variable.
use super::eval::Env;
use crate::ir::{CaseArmM, ExprM, IrBinOp, SpannedM, StmtM};
use vstd::prelude::*;

verus! {

/// A write that takes effect after the block has run.
pub ghost enum LateWrite {
    Signal(Seq<char>, i64),
    Memory(Seq<char>, i64, i64),
}

/// A system task that was called, with the values of its arguments.
pub ghost struct TaskCall {
    pub name: Seq<char>,
    pub args: Seq<i64>,
}

/// What statements act on: the values now, the writes that are still to come, and the system
/// tasks called so far.
pub ghost struct RunState {
    pub env: Env,
    pub late: Seq<LateWrite>,
    pub calls: Seq<TaskCall>,
}

/// `env` with another value of a signal.
pub open spec fn with_signal(env: Env, name: Seq<char>, v: i64) -> Env {
    Env {
        ident: |n: Seq<char>|
            if n == name {
                v
            } else {
                (env.ident)(n)
            },
        ..env
    }
}

/// `env` with another value of a memory word.
pub open spec fn with_word(env: Env, stem: Seq<char>, index: i64, v: i64) -> Env {
    Env {
        mem: |s: Seq<char>, i: i64|
            if s == stem && i == index {
                v
            } else {
                (env.mem)(s, i)
            },
        ..env
    }
}

/// The value of a case matches an arm.
pub open spec fn arm_matches(v: i64, arm: CaseArmM, env: Env) -> bool {
    let w = super::eval::eval(arm.value, env);
    match arm.care_mask {
        Some(mask) => v & mask == w & mask,
        None => v == w,
    }
}

/// Values of a list of expressions.
pub open spec fn values(es: Seq<ExprM>, env: Env) -> Seq<i64> {
    Seq::new(es.len(), |i: int| super::eval::eval(es[i], env))
}

/// Running a statement. A loop runs for at most `fuel` turns each time it is entered; time
/// does not pass here, so that a delay does nothing.
pub open spec fn run(s: StmtM, st: RunState, fuel: nat) -> RunState
    decreases s, 0nat,
{
    match s {
        StmtM::BlockingAssign { lhs, rhs } => RunState {
            env: with_signal(st.env, lhs, super::eval::eval(rhs, st.env)),
            ..st
        },
        StmtM::NonBlockingAssign { lhs, rhs } => RunState {
            late: st.late.push(LateWrite::Signal(lhs, super::eval::eval(rhs, st.env))),
            ..st
        },
        StmtM::MemAssign { stem, index, rhs, nonblocking } => {
            let i = super::eval::eval(index, st.env);
            let v = super::eval::eval(rhs, st.env);
            if nonblocking {
                RunState { late: st.late.push(LateWrite::Memory(stem, i, v)), ..st }
            } else {
                RunState { env: with_word(st.env, stem, i, v), ..st }
            }
        },
        StmtM::IfElse { cond, then_body, else_body } => if super::eval::eval(cond, st.env) != 0 {
            run_block(then_body, st, fuel)
        } else {
            run_block(else_body, st, fuel)
        },
        StmtM::Case { expr, arms, default } => match first_match(
            arms,
            super::eval::eval(expr, st.env),
            st.env,
        ) {
            Some(i) => if 0 <= i < arms.len() {
                run_block(arms[i].body, st, fuel)
            } else {
                st
            },
            None => run_block(default, st, fuel),
        },
        StmtM::For { init_var, init_val, cond, step_var, step_expr, body } => run_loop(
            step_var,
            cond,
            step_expr,
            body,
            entered(st, init_var, super::eval::eval(init_val, st.env)),
            fuel,
            fuel,
        ),
        StmtM::Delay(_) => st,
        StmtM::SystemTask { name, args } => RunState {
            calls: st.calls.push(TaskCall { name, args: values(args, st.env) }),
            ..st
        },
    }
}

/// Running a block.
pub open spec fn run_block(b: Seq<SpannedM>, st: RunState, fuel: nat) -> RunState
    decreases b, 0nat,
{
    if b.len() == 0 {
        st
    } else {
        run(b.last().stmt, run_block(b.drop_last(), st, fuel), fuel)
    }
}

/// One turn of a loop: the body, then the step.
pub open spec fn turn(
    var: Seq<char>,
    step_expr: ExprM,
    body: Seq<SpannedM>,
    st: RunState,
    fuel: nat,
) -> RunState
    decreases body, 1nat,
{
    let after = run_block(body, st, fuel);
    RunState {
        env: with_signal(after.env, var, super::eval::eval(step_expr, after.env)),
        ..after
    }
}

/// Running a loop from its condition on, for at most `left` turns.
pub open spec fn run_loop(
    var: Seq<char>,
    cond: ExprM,
    step_expr: ExprM,
    body: Seq<SpannedM>,
    st: RunState,
    left: nat,
    fuel: nat,
) -> RunState
    decreases body, left + 2,
{
    if left == 0 || super::eval::eval(cond, st.env) == 0 {
        st
    } else {
        run_loop(
            var,
            cond,
            step_expr,
            body,
            turn(var, step_expr, body, st, fuel),
            (left - 1) as nat,
            fuel,
        )
    }
}

/// The state in which a loop is entered.
pub open spec fn entered(st: RunState, var: Seq<char>, start: i64) -> RunState {
    RunState { env: with_signal(st.env, var, start), ..st }
}

/// Position of the first arm that matches.
pub open spec fn first_match(arms: Seq<CaseArmM>, v: i64, env: Env) -> Option<int>
    decreases arms.len(),
{
    if arms.len() == 0 {
        None
    } else {
        match first_match(arms.drop_last(), v, env) {
            Some(i) => Some(i),
            None => if arm_matches(v, arms.last(), env) {
                Some(arms.len() - 1)
            } else {
                None
            },
        }
    }
}

/// Running a list of statements.
pub open spec fn run_all(s: Seq<StmtM>, st: RunState, fuel: nat) -> RunState
    decreases s.len(),
{
    if s.len() == 0 {
        st
    } else {
        run(s.last(), run_all(s.drop_last(), st, fuel), fuel)
    }
}

/// The statement runs straight through, without a delay, and does not set `var`.
pub open spec fn straight(s: StmtM, var: Seq<char>) -> bool
    decreases s,
{
    match s {
        StmtM::BlockingAssign { lhs, .. } => lhs != var,
        StmtM::NonBlockingAssign { .. } | StmtM::MemAssign { .. } => true,
        StmtM::IfElse { then_body, else_body, .. } => straight_block(then_body, var)
            && straight_block(else_body, var),
        StmtM::Case { arms, default, .. } => straight_arms(arms, var) && straight_block(
            default,
            var,
        ),
        StmtM::For { init_var, step_var, body, .. } => init_var != var && step_var != var
            && straight_block(body, var),
        StmtM::Delay(_) => false,
        StmtM::SystemTask { .. } => true,
    }
}

pub open spec fn straight_block(b: Seq<SpannedM>, var: Seq<char>) -> bool
    decreases b,
{
    b.len() == 0 || (straight_block(b.drop_last(), var) && straight(b.last().stmt, var))
}

pub open spec fn straight_arms(arms: Seq<CaseArmM>, var: Seq<char>) -> bool
    decreases arms,
{
    arms.len() == 0 || (straight_arms(arms.drop_last(), var) && straight_block(
        arms.last().body,
        var,
    ))
}

/// `b` is `a` but that `var` has the value `val`.
pub open spec fn differs_in(a: RunState, b: RunState, var: Seq<char>, val: i64) -> bool {
    a.late == b.late && a.calls == b.calls && b.env == with_signal(a.env, var, val)
}

proof fn lemma_override(env: Env, var: Seq<char>, val: i64)
    ensures
        super::laws::overridden(env, super::unroll::loop_map(var, val)) == with_signal(
            env,
            var,
            val,
        ),
{
    let m = super::unroll::loop_map(var, val);
    assert(super::laws::overridden(env, m).ident =~= with_signal(env, var, val).ident);
}

proof fn lemma_value(e: ExprM, a: RunState, b: RunState, var: Seq<char>, val: i64)
    requires
        differs_in(a, b, var, val),
    ensures
        super::eval::eval(
            super::subst::subst(e, super::unroll::loop_map(var, val)),
            a.env,
        ) == super::eval::eval(e, b.env),
{
    lemma_override(a.env, var, val);
    super::laws::law_substitution_is_override(e, super::unroll::loop_map(var, val), a.env);
}

proof fn lemma_first_match(
    arms: Seq<CaseArmM>,
    v: i64,
    a: RunState,
    b: RunState,
    var: Seq<char>,
    val: i64,
)
    requires
        differs_in(a, b, var, val),
    ensures
        first_match(
            super::unroll::arms_with(arms, super::unroll::loop_map(var, val)),
            v,
            a.env,
        ) == first_match(arms, v, b.env),
        first_match(arms, v, b.env) matches Some(i) ==> 0 <= i < arms.len(),
    decreases arms.len(),
{
    let m = super::unroll::loop_map(var, val);
    if arms.len() > 0 {
        lemma_first_match(arms.drop_last(), v, a, b, var, val);
        let out = super::unroll::arms_with(arms, m);
        assert(out.drop_last() =~= super::unroll::arms_with(arms.drop_last(), m));
        lemma_value(arms.last().value, a, b, var, val);
    } else {
        assert(super::unroll::arms_with(arms, m) =~= arms);
    }
}

proof fn lemma_straight_arm(arms: Seq<CaseArmM>, i: int, var: Seq<char>)
    requires
        straight_arms(arms, var),
        0 <= i < arms.len(),
    ensures
        straight_block(arms[i].body, var),
    decreases arms.len(),
{
    if i < arms.len() - 1 {
        lemma_straight_arm(arms.drop_last(), i, var);
    }
}

proof fn lemma_run(s: StmtM, a: RunState, b: RunState, var: Seq<char>, val: i64, fuel: nat)
    requires
        straight(s, var),
        differs_in(a, b, var, val),
    ensures
        differs_in(
            run(super::unroll::stmt_with(s, super::unroll::loop_map(var, val)), a, fuel),
            run(s, b, fuel),
            var,
            val,
        ),
    decreases s, 0nat,
{
    let m = super::unroll::loop_map(var, val);
    match s {
        StmtM::BlockingAssign { lhs, rhs } => {
            lemma_value(rhs, a, b, var, val);
            let v = super::eval::eval(rhs, b.env);
            assert(with_signal(with_signal(a.env, lhs, v), var, val).ident =~= with_signal(
                b.env,
                lhs,
                v,
            ).ident);
        },
        StmtM::NonBlockingAssign { lhs, rhs } => {
            lemma_value(rhs, a, b, var, val);
        },
        StmtM::MemAssign { stem, index, rhs, nonblocking } => {
            lemma_value(index, a, b, var, val);
            lemma_value(rhs, a, b, var, val);
            let i = super::eval::eval(index, b.env);
            let v = super::eval::eval(rhs, b.env);
            if !nonblocking {
                assert(with_word(a.env, stem, i, v).mem =~= with_word(b.env, stem, i, v).mem);
            }
        },
        StmtM::IfElse { cond, then_body, else_body } => {
            lemma_value(cond, a, b, var, val);
            lemma_run_block(then_body, a, b, var, val, fuel);
            lemma_run_block(else_body, a, b, var, val, fuel);
        },
        StmtM::Case { expr, arms, default } => {
            lemma_value(expr, a, b, var, val);
            let v = super::eval::eval(expr, b.env);
            lemma_first_match(arms, v, a, b, var, val);
            match first_match(arms, v, b.env) {
                Some(i) => {
                    lemma_straight_arm(arms, i, var);
                    assert(decreases_to!(arms => arms[i]));
                    lemma_run_block(arms[i].body, a, b, var, val, fuel);
                },
                None => {
                    lemma_run_block(default, a, b, var, val, fuel);
                },
            }
        },
        StmtM::For { init_var, init_val, cond, step_var, step_expr, body } => {
            assert(!m.contains_key(init_var));
            lemma_value(init_val, a, b, var, val);
            let v = super::eval::eval(init_val, b.env);
            let a1 = entered(a, init_var, v);
            let b1 = entered(b, init_var, v);
            assert(with_signal(a1.env, var, val).ident =~= b1.env.ident);
            lemma_run_loop(step_var, cond, step_expr, body, a1, b1, var, val, fuel, fuel);
        },
        StmtM::Delay(_) => {},
        StmtM::SystemTask { name, args } => {
            lemma_values(args, a, b, var, val);
        },
    }
}

proof fn lemma_values(es: Seq<ExprM>, a: RunState, b: RunState, var: Seq<char>, val: i64)
    requires
        differs_in(a, b, var, val),
    ensures
        values(super::subst::subst_all(es, super::unroll::loop_map(var, val)), a.env) == values(
            es,
            b.env,
        ),
    decreases es.len(),
{
    let m = super::unroll::loop_map(var, val);
    let out = super::subst::subst_all(es, m);
    if es.len() > 0 {
        lemma_values(es.drop_last(), a, b, var, val);
        lemma_value(es.last(), a, b, var, val);
        let before = super::subst::subst_all(es.drop_last(), m);
        assert(values(out, a.env) =~= values(before, a.env).push(
            super::eval::eval(es.last(), b.env),
        ));
        assert(values(es, b.env) =~= values(es.drop_last(), b.env).push(
            super::eval::eval(es.last(), b.env),
        ));
    } else {
        assert(values(out, a.env) =~= values(es, b.env));
    }
}

proof fn lemma_run_loop(
    step_var: Seq<char>,
    cond: ExprM,
    step_expr: ExprM,
    body: Seq<SpannedM>,
    a: RunState,
    b: RunState,
    var: Seq<char>,
    val: i64,
    left: nat,
    fuel: nat,
)
    requires
        step_var != var,
        straight_block(body, var),
        differs_in(a, b, var, val),
    ensures
        ({
            let m = super::unroll::loop_map(var, val);
            differs_in(
                run_loop(
                    step_var,
                    super::subst::subst(cond, m),
                    super::subst::subst(step_expr, m),
                    super::unroll::block_with(body, m),
                    a,
                    left,
                    fuel,
                ),
                run_loop(step_var, cond, step_expr, body, b, left, fuel),
                var,
                val,
            )
        }),
    decreases body, left + 1,
{
    let m = super::unroll::loop_map(var, val);
    lemma_value(cond, a, b, var, val);
    if left > 0 && super::eval::eval(cond, b.env) != 0 {
        lemma_run_block(body, a, b, var, val, fuel);
        let a1 = run_block(super::unroll::block_with(body, m), a, fuel);
        let b1 = run_block(body, b, fuel);
        lemma_value(step_expr, a1, b1, var, val);
        let a2 = turn(
            step_var,
            super::subst::subst(step_expr, m),
            super::unroll::block_with(body, m),
            a,
            fuel,
        );
        let b2 = turn(step_var, step_expr, body, b, fuel);
        assert(with_signal(a2.env, var, val).ident =~= b2.env.ident);
        lemma_run_loop(
            step_var,
            cond,
            step_expr,
            body,
            a2,
            b2,
            var,
            val,
            (left - 1) as nat,
            fuel,
        );
    }
}

proof fn lemma_run_block(
    body: Seq<SpannedM>,
    a: RunState,
    b: RunState,
    var: Seq<char>,
    val: i64,
    fuel: nat,
)
    requires
        straight_block(body, var),
        differs_in(a, b, var, val),
    ensures
        differs_in(
            run_block(super::unroll::block_with(body, super::unroll::loop_map(var, val)), a, fuel),
            run_block(body, b, fuel),
            var,
            val,
        ),
    decreases body, 0nat,
{
    let m = super::unroll::loop_map(var, val);
    let out = super::unroll::block_with(body, m);
    if body.len() > 0 {
        assert(out.drop_last() =~= super::unroll::block_with(body.drop_last(), m));
        lemma_run_block(body.drop_last(), a, b, var, val, fuel);
        lemma_run(
            body.last().stmt,
            run_block(out.drop_last(), a, fuel),
            run_block(body.drop_last(), b, fuel),
            var,
            val,
            fuel,
        );
    }
}

proof fn lemma_iteration_runs(
    body: Seq<SpannedM>,
    var: Seq<char>,
    val: i64,
    st: RunState,
    fuel: nat,
)
    ensures
        run_all(super::unroll::iteration(body, var, val), st, fuel) == run_block(
            super::unroll::block_with(body, super::unroll::loop_map(var, val)),
            st,
            fuel,
        ),
    decreases body.len(),
{
    let m = super::unroll::loop_map(var, val);
    let list = super::unroll::iteration(body, var, val);
    let out = super::unroll::block_with(body, m);
    if body.len() > 0 {
        lemma_iteration_runs(body.drop_last(), var, val, st, fuel);
        assert(list.drop_last() =~= super::unroll::iteration(body.drop_last(), var, val));
        assert(out.drop_last() =~= super::unroll::block_with(body.drop_last(), m));
        assert(list.last() == out.last().stmt);
    }
}

proof fn lemma_run_all_concat(x: Seq<StmtM>, y: Seq<StmtM>, st: RunState, fuel: nat)
    ensures
        run_all(x + y, st, fuel) == run_all(y, run_all(x, st, fuel), fuel),
    decreases y.len(),
{
    if y.len() > 0 {
        lemma_run_all_concat(x, y.drop_last(), st, fuel);
        assert((x + y).drop_last() =~= x + y.drop_last());
    } else {
        assert(x + y =~= x);
    }
}

/// The state after `k` turns.
pub open spec fn after_turns(
    var: Seq<char>,
    step_expr: ExprM,
    body: Seq<SpannedM>,
    st: RunState,
    k: nat,
    fuel: nat,
) -> RunState
    decreases k,
{
    if k == 0 {
        st
    } else {
        turn(
            var,
            step_expr,
            body,
            after_turns(var, step_expr, body, st, (k - 1) as nat, fuel),
            fuel,
        )
    }
}

proof fn lemma_turns(
    var: Seq<char>,
    step_expr: ExprM,
    step: i64,
    body: Seq<SpannedM>,
    st: RunState,
    start: i64,
    k: nat,
    fuel: nat,
)
    requires
        straight_block(body, var),
        super::unroll::var_op_const(step_expr, IrBinOp::Add, var) == Some(step),
        step > 0,
        start + k * step <= i64::MAX,
    ensures
        differs_in(
            run_all(
                super::unroll::iterations(body, var, start as int, step as int, k),
                st,
                fuel,
            ),
            after_turns(var, step_expr, body, entered(st, var, start), k, fuel),
            var,
            (start + k * step) as i64,
        ),
    decreases k,
{
    let list = super::unroll::iterations(body, var, start as int, step as int, k);
    if k == 0 {
        assert(list =~= Seq::empty());
        assert(k * step == 0) by (nonlinear_arith)
            requires
                k == 0,
        ;
    } else {
        let j = (k - 1) as nat;
        assert(k * step == j * step + step) by (nonlinear_arith)
            requires
                k == j + 1,
        ;
        assert(j * step >= 0) by (nonlinear_arith)
            requires
                step > 0,
                j >= 0,
        ;
        lemma_turns(var, step_expr, step, body, st, start, j, fuel);
        let before = super::unroll::iterations(body, var, start as int, step as int, j);
        let val = (start + j * step) as i64;
        let one = super::unroll::iteration(body, var, val);
        lemma_run_all_concat(before, one, st, fuel);
        let a = run_all(before, st, fuel);
        let b = after_turns(var, step_expr, body, entered(st, var, start), j, fuel);
        lemma_iteration_runs(body, var, val, a, fuel);
        lemma_run_block(body, a, b, var, val, fuel);
        let a2 = run_all(one, a, fuel);
        let b2 = run_block(body, b, fuel);
        reveal_with_fuel(super::eval::eval, 2);
        let next = (val + step) as i64;
        assert((b2.env.ident)(var) == val);
        assert(super::eval::eval(step_expr, b2.env) == next) by {
            crate::arith::lemma_wrap64(val + step);
        }
        assert(with_signal(b2.env, var, next).ident =~= with_signal(a2.env, var, next).ident);
    }
}

proof fn lemma_loop_from(
    var: Seq<char>,
    cond: ExprM,
    step_expr: ExprM,
    body: Seq<SpannedM>,
    st: RunState,
    j: nat,
    n: nat,
    left: nat,
    fuel: nat,
)
    requires
        j <= n,
        n - j <= left,
        forall|k: nat|
            k < n ==> super::eval::eval(
                cond,
                (#[trigger] after_turns(var, step_expr, body, st, k, fuel)).env,
            ) != 0,
        super::eval::eval(cond, after_turns(var, step_expr, body, st, n, fuel).env) == 0,
    ensures
        run_loop(
            var,
            cond,
            step_expr,
            body,
            after_turns(var, step_expr, body, st, j, fuel),
            left,
            fuel,
        ) == after_turns(var, step_expr, body, st, n, fuel),
    decreases n - j,
{
    if j < n {
        lemma_loop_from(var, cond, step_expr, body, st, j + 1, n, (left - 1) as nat, fuel);
    }
}

/// Running the statements that a loop unrolls to does what running the loop does: the loop
/// ends, the late writes and the calls of system tasks are the same, and so are all values
/// but that of the loop variable. The body has to run without a delay and without setting
/// the variable, the variable must not overflow, and a loop that runs until its variable
/// equals a bound must meet it. Loops in the body may run for as many turns as `fuel`
/// allows.
pub proof fn law_unrolling_keeps_effect(
    var: Seq<char>,
    start: i64,
    cond: ExprM,
    step_expr: ExprM,
    body: Seq<SpannedM>,
    st: RunState,
    fuel: nat,
)
    requires
        super::unroll::unroll_m(var, ExprM::Const(start), cond, var, step_expr, body) is Some,
        straight_block(body, var),
        ({
            let end = super::unroll::loop_end(cond, var)->0;
            let step = super::unroll::var_op_const(step_expr, IrBinOp::Add, var)->0;
            let n = super::unroll::iteration_count(start as int, end, step as int);
            &&& start + n * step <= i64::MAX
            &&& super::unroll::var_op_const(cond, IrBinOp::Ne, var) is Some ==> start + n * step
                == end
            &&& n <= fuel
        }),
    ensures
        ({
            let out = super::unroll::unroll_m(
                var,
                ExprM::Const(start),
                cond,
                var,
                step_expr,
                body,
            )->0;
            let done = run(
                StmtM::For {
                    init_var: var,
                    init_val: ExprM::Const(start),
                    cond,
                    step_var: var,
                    step_expr,
                    body,
                },
                st,
                fuel,
            );
            &&& super::eval::eval(cond, done.env) == 0
            &&& differs_in(run_all(out, st, fuel), done, var, (done.env.ident)(var))
        }),
{
    let end = super::unroll::loop_end(cond, var)->0;
    let step = super::unroll::var_op_const(step_expr, IrBinOp::Add, var)->0;
    let n = super::unroll::iteration_count(start as int, end, step as int) as nat;
    let first = entered(st, var, start);
    reveal_with_fuel(super::eval::eval, 2);
    if start <= end {
        super::unroll::law_iterations_cover_loop(start as int, end, step as int);
    } else {
        super::unroll::lemma_no_iteration(start as int, end, step as int);
        assert(n * step == 0) by (nonlinear_arith)
            requires
                n == 0,
        ;
    }
    assert forall|k: nat| k < n implies super::eval::eval(
        cond,
        (#[trigger] after_turns(var, step_expr, body, first, k, fuel)).env,
    ) != 0 by {
        let v = start + k * step;
        assert(start <= v < end);
        lemma_turns(var, step_expr, step, body, st, start, k, fuel);
    }
    lemma_turns(var, step_expr, step, body, st, start, n, fuel);
    let done = after_turns(var, step_expr, body, first, n, fuel);
    lemma_loop_from(var, cond, step_expr, body, first, 0, n, fuel, fuel);
}

} // verus!
