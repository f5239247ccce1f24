//! Unrolling of `for` loops with bounds known at compile time.
use super::subst::{substitute, substitute_all, Bindings};
use crate::ir::{
    clone_exprs, CaseArmM, ExprM, IrBinOp, IrCaseArm, IrExpr, IrStmt, SpannedM, SpannedStmt,
    StmtBlock, StmtM,
};
use crate::source_map::Span;
use crate::text::str_eq;
use vstd::prelude::*;

verus! {

/// Loops with more iterations than this are left alone.
pub const MAX_UNROLL_ITERATIONS: i64 = 256;

/// The table that binds a loop variable to its value in one iteration.
pub open spec fn loop_map(var: Seq<char>, val: i64) -> Map<Seq<char>, ExprM> {
    Map::<Seq<char>, ExprM>::empty().insert(var, ExprM::Const(val))
}

/// A statement of the loop body in the iteration described by `m`. An inner `for` loop over
/// a bound variable shadows it: only the initial value of the inner loop is still outside.
pub open spec fn stmt_with(s: StmtM, m: Map<Seq<char>, ExprM>) -> StmtM
    decreases s,
{
    match s {
        StmtM::BlockingAssign { lhs, rhs } => StmtM::BlockingAssign {
            lhs,
            rhs: super::subst::subst(rhs, m),
        },
        StmtM::NonBlockingAssign { lhs, rhs } => StmtM::NonBlockingAssign {
            lhs,
            rhs: super::subst::subst(rhs, m),
        },
        StmtM::MemAssign { stem, index, rhs, nonblocking } => StmtM::MemAssign {
            stem,
            index: super::subst::subst(index, m),
            rhs: super::subst::subst(rhs, m),
            nonblocking,
        },
        StmtM::IfElse { cond, then_body, else_body } => StmtM::IfElse {
            cond: super::subst::subst(cond, m),
            then_body: block_with(then_body, m),
            else_body: block_with(else_body, m),
        },
        StmtM::Case { expr, arms, default } => StmtM::Case {
            expr: super::subst::subst(expr, m),
            arms: arms_with(arms, m),
            default: block_with(default, m),
        },
        StmtM::For { init_var, init_val, cond, step_var, step_expr, body } => if m.contains_key(
            init_var,
        ) {
            StmtM::For {
                init_var,
                init_val: super::subst::subst(init_val, m),
                cond,
                step_var,
                step_expr,
                body,
            }
        } else {
            StmtM::For {
                init_var,
                init_val: super::subst::subst(init_val, m),
                cond: super::subst::subst(cond, m),
                step_var,
                step_expr: super::subst::subst(step_expr, m),
                body: block_with(body, m),
            }
        },
        StmtM::Delay(_) => s,
        StmtM::SystemTask { name, args } => StmtM::SystemTask {
            name,
            args: super::subst::subst_all(args, m),
        },
    }
}

pub open spec fn block_with(b: Seq<SpannedM>, m: Map<Seq<char>, ExprM>) -> Seq<SpannedM>
    decreases b,
{
    Seq::new(
        b.len(),
        |i: int|
            if 0 <= i < b.len() {
                SpannedM { stmt: stmt_with(b[i].stmt, m), span: b[i].span }
            } else {
                arbitrary()
            },
    )
}

pub open spec fn arms_with(arms: Seq<CaseArmM>, m: Map<Seq<char>, ExprM>) -> Seq<CaseArmM>
    decreases arms,
{
    Seq::new(
        arms.len(),
        |i: int|
            if 0 <= i < arms.len() {
                CaseArmM {
                    value: super::subst::subst(arms[i].value, m),
                    body: block_with(arms[i].body, m),
                    care_mask: arms[i].care_mask,
                }
            } else {
                arbitrary()
            },
    )
}

fn substitute_loop_var(expr: &IrExpr, map: &Bindings) -> (r: IrExpr)
    ensures
        r@ == super::subst::subst(expr@, map@),
{
    let mut out = expr.clone();
    let _ = substitute(&mut out, map, None);
    out
}

fn substitute_loop_var_in_block(block: &StmtBlock, map: &Bindings) -> (r: StmtBlock)
    ensures
        r@ == block_with(block@, map@),
    decreases block,
{
    let mut out: Vec<SpannedStmt> = Vec::new();
    let mut i: usize = 0;
    while i < block.entries.len()
        invariant
            i <= block.entries@.len(),
            out@.len() == i,
            forall|j: int| 0 <= j < i ==> (#[trigger] out@[j])@ == block_with(block@, map@)[j],
        decreases block.entries@.len() - i,
    {
        assert(decreases_to!(block => block.entries@));
        assert(decreases_to!(block.entries@ => block.entries@[i as int]));
        assert(block@[i as int] == block.entries@[i as int]@);
        let stmt = substitute_loop_var_in_stmt(&block.entries[i].stmt, map);
        out.push(SpannedStmt { stmt, span: block.entries[i].span });
        i = i + 1;
    }
    let r = StmtBlock { entries: out };
    assert(r@ =~= block_with(block@, map@));
    r
}

fn substitute_loop_var_in_stmt(stmt: &IrStmt, map: &Bindings) -> (r: IrStmt)
    ensures
        r@ == stmt_with(stmt@, map@),
    decreases stmt,
{
    match stmt {
        IrStmt::BlockingAssign { lhs, rhs } => IrStmt::BlockingAssign {
            lhs: lhs.clone(),
            rhs: substitute_loop_var(rhs, map),
        },
        IrStmt::NonBlockingAssign { lhs, rhs } => IrStmt::NonBlockingAssign {
            lhs: lhs.clone(),
            rhs: substitute_loop_var(rhs, map),
        },
        IrStmt::MemAssign { stem, index, rhs, nonblocking } => IrStmt::MemAssign {
            stem: stem.clone(),
            index: substitute_loop_var(index, map),
            rhs: substitute_loop_var(rhs, map),
            nonblocking: *nonblocking,
        },
        IrStmt::IfElse { cond, then_body, else_body } => IrStmt::IfElse {
            cond: substitute_loop_var(cond, map),
            then_body: substitute_loop_var_in_block(then_body, map),
            else_body: substitute_loop_var_in_block(else_body, map),
        },
        IrStmt::Case { expr, arms, default } => {
            let ghost model = crate::ir::arms_view(arms@);
            let mut out: Vec<IrCaseArm> = Vec::new();
            let mut i: usize = 0;
            while i < arms.len()
                invariant
                    i <= arms@.len(),
                    out@.len() == i,
                    model == crate::ir::arms_view(arms@),
                    forall|j: int|
                        0 <= j < i ==> (#[trigger] out@[j])@ == arms_with(model, map@)[j],
                    decreases_to!(stmt => arms@),
                decreases arms@.len() - i,
            {
                assert(decreases_to!(arms@ => arms@[i as int]));
                assert(model[i as int] == arms@[i as int]@);
                let arm = &arms[i];
                out.push(
                    IrCaseArm {
                        value: substitute_loop_var(&arm.value, map),
                        body: substitute_loop_var_in_block(&arm.body, map),
                        care_mask: arm.care_mask,
                    },
                );
                i = i + 1;
            }
            assert(crate::ir::arms_view(out@) =~= arms_with(model, map@));
            IrStmt::Case {
                expr: substitute_loop_var(expr, map),
                arms: out,
                default: substitute_loop_var_in_block(default, map),
            }
        },
        IrStmt::For { init_var, init_val, cond, step_var, step_expr, body } => {
            let init_val = substitute_loop_var(init_val, map);
            let shadowed = map.get(init_var.as_str()).is_some();
            let (cond, step_expr, body) = if shadowed {
                (cond.clone(), step_expr.clone(), body.clone())
            } else {
                (
                    substitute_loop_var(cond, map),
                    substitute_loop_var(step_expr, map),
                    substitute_loop_var_in_block(body, map),
                )
            };
            IrStmt::For {
                init_var: init_var.clone(),
                init_val,
                cond,
                step_var: step_var.clone(),
                step_expr,
                body,
            }
        },
        IrStmt::Delay(_) => stmt.clone(),
        IrStmt::SystemTask { name, args } => {
            let mut args = clone_exprs(args);
            let _ = substitute_all(&mut args, map, None);
            IrStmt::SystemTask { name: name.clone(), args }
        },
    }
}

/// `n` where `e` is `var op n`.
pub open spec fn var_op_const(e: ExprM, op: IrBinOp, var: Seq<char>) -> Option<i64> {
    match e {
        ExprM::Binary { op: o, left, right } => if o == op && *left == ExprM::Ident(var)
            && *right is Const {
            Some(right->Const_0)
        } else {
            None
        },
        _ => None,
    }
}

/// First value of the loop variable that ends the loop: `N` for `var < N` and
/// `var != N`, `N + 1` for `var <= N`.
pub open spec fn loop_end(cond: ExprM, var: Seq<char>) -> Option<int> {
    match var_op_const(cond, IrBinOp::Lt, var) {
        Some(n) => Some(n as int),
        None => match var_op_const(cond, IrBinOp::Le, var) {
            Some(n) => Some(n + 1),
            None => match var_op_const(cond, IrBinOp::Ne, var) {
                Some(n) => Some(n as int),
                None => None,
            },
        },
    }
}

/// Number of iterations from `start` to `end` by `step`.
pub open spec fn iteration_count(start: int, end: int, step: int) -> int {
    crate::arith::div_trunc(end - start + step - 1, step)
}

/// The statements of `k` iterations, one after the other.
pub open spec fn iterations(
    body: Seq<SpannedM>,
    var: Seq<char>,
    start: int,
    step: int,
    k: nat,
) -> Seq<StmtM>
    decreases k,
{
    if k == 0 {
        Seq::empty()
    } else {
        iterations(body, var, start, step, (k - 1) as nat) + iteration(
            body,
            var,
            (start + (k - 1) * step) as i64,
        )
    }
}

/// The statements of one iteration.
pub open spec fn iteration(body: Seq<SpannedM>, var: Seq<char>, val: i64) -> Seq<StmtM> {
    Seq::new(body.len(), |i: int| stmt_with(body[i].stmt, loop_map(var, val)))
}

/// The statements that a `for` loop unrolls to: the same variable is initialized with a
/// constant, bounded by a constant and stepped by a positive constant, and there are at
/// most [`MAX_UNROLL_ITERATIONS`] iterations.
pub open spec fn unroll_m(
    init_var: Seq<char>,
    init_val: ExprM,
    cond: ExprM,
    step_var: Seq<char>,
    step_expr: ExprM,
    body: Seq<SpannedM>,
) -> Option<Seq<StmtM>> {
    let end = loop_end(cond, init_var);
    let step = var_op_const(step_expr, IrBinOp::Add, init_var);
    if init_var == step_var && init_val is Const && end is Some && step is Some && step->0 > 0 {
        let start = init_val->Const_0 as int;
        let n = iteration_count(start, end->0, step->0 as int);
        if 0 <= n <= MAX_UNROLL_ITERATIONS {
            Some(iterations(body, init_var, start, step->0 as int, n as nat))
        } else {
            None
        }
    } else {
        None
    }
}

fn var_and_const(e: &IrExpr, op: IrBinOp, var: &str) -> (r: Option<i64>)
    ensures
        r == var_op_const(e@, op, var@),
{
    proof {
        reveal_with_fuel(IrExpr::view, 2);
    }
    if let IrExpr::Binary { op: o, left, right } = e {
        if *o == op {
            if let (IrExpr::Ident(v), IrExpr::Const(n)) = (&**left, &**right) {
                if str_eq(v.as_str(), var) {
                    return Some(*n);
                }
            }
        }
    }
    None
}

proof fn lemma_iteration_range(start: int, end: int, step: int, k: int)
    requires
        step > 0,
        0 <= k < iteration_count(start, end, step),
    ensures
        start + k * step < end,
        start <= start + k * step,
{
    let a = end - start + step - 1;
    if a < 0 {
        assert(-((-a) / step) <= 0) by (nonlinear_arith)
            requires
                a < 0,
                step > 0,
        ;
    } else {
        let n = a / step;
        assert(n * step <= a) by (nonlinear_arith)
            requires
                step > 0,
                n == a / step,
        ;
        assert(k * step <= (n - 1) * step) by (nonlinear_arith)
            requires
                k <= n - 1,
                step > 0,
        ;
        assert((n - 1) * step == n * step - step) by (nonlinear_arith);
        assert(k * step >= 0) by (nonlinear_arith)
            requires
                k >= 0,
                step > 0,
        ;
    }
}

/// A loop that starts above its end is not taken for one that runs.
pub(crate) proof fn lemma_no_iteration(start: int, end: int, step: int)
    requires
        step > 0,
        start > end,
    ensures
        iteration_count(start, end, step) <= 0,
{
    let a = end - start + step - 1;
    if a >= 0 {
        assert(a / step == 0) by (nonlinear_arith)
            requires
                0 <= a < step,
        ;
    } else {
        assert(-((-a) / step) <= 0) by (nonlinear_arith)
            requires
                a < 0,
                step > 0,
        ;
    }
}

/// The values of the unrolled iterations are those that a loop counting up from `start`
/// by `step` takes below `end`: every iteration is below it, and the next value is not,
/// where the loop starts at or below its end.
pub proof fn law_iterations_cover_loop(start: int, end: int, step: int)
    requires
        step > 0,
        start <= end,
    ensures
        iteration_count(start, end, step) >= 0,
        forall|k: int|
            0 <= k < iteration_count(start, end, step) ==> start <= #[trigger] (start + k * step)
                < end,
        start + iteration_count(start, end, step) * step >= end,
{
    let a = end - start + step - 1;
    let n = a / step;
    assert(n >= 0 && n * step > a - step) by (nonlinear_arith)
        requires
            step > 0,
            a >= 0,
            n == a / step,
    ;
    assert forall|k: int| 0 <= k < n implies start <= #[trigger] (start + k * step) < end by {
        lemma_iteration_range(start, end, step, k);
    }
}

/// Unrolls one loop, if its bounds are known.
pub fn try_unroll(
    init_var: &str,
    init_val: &IrExpr,
    cond: &IrExpr,
    step_var: &str,
    step_expr: &IrExpr,
    body: &StmtBlock,
) -> (r: Option<Vec<IrStmt>>)
    ensures
        match r {
            Some(v) => unroll_m(
                init_var@,
                init_val@,
                cond@,
                step_var@,
                step_expr@,
                body@,
            ) == Some(stmts_view(v@)),
            None => unroll_m(
                init_var@,
                init_val@,
                cond@,
                step_var@,
                step_expr@,
                body@,
            ) is None,
        },
{
    if !str_eq(init_var, step_var) {
        return None;
    }
    let start: i64 = match init_val {
        IrExpr::Const(v) => *v,
        _ => {
            return None;
        },
    };
    let end: i128 = if let Some(n) = var_and_const(cond, IrBinOp::Lt, init_var) {
        n as i128
    } else if let Some(n) = var_and_const(cond, IrBinOp::Le, init_var) {
        n as i128 + 1
    } else if let Some(n) = var_and_const(cond, IrBinOp::Ne, init_var) {
        n as i128
    } else {
        return None;
    };
    let step: i64 = match var_and_const(step_expr, IrBinOp::Add, init_var) {
        Some(n) => n,
        None => {
            return None;
        },
    };
    if step <= 0 {
        return None;
    }
    let span: i128 = end - start as i128 + step as i128 - 1;
    // A truncated quotient: a negative span smaller than one step counts as no iteration.
    let n: i128 = if span >= 0 {
        span / step as i128
    } else {
        -((-span) / step as i128)
    };
    if n < 0 || n > 256 {
        return None;
    }
    let mut result: Vec<IrStmt> = Vec::new();
    let mut k: i64 = 0;
    let total: i64 = n as i64;
    assert(stmts_view(result@) =~= iterations(body@, init_var@, start as int, step as int, 0));
    while k < total
        invariant
            0 <= k <= total <= 256,
            step > 0,
            total == iteration_count(start as int, end as int, step as int),
            end <= i64::MAX + 1,
            stmts_view(result@) == iterations(
                body@,
                init_var@,
                start as int,
                step as int,
                k as nat,
            ),
        decreases total - k,
    {
        proof {
            lemma_iteration_range(start as int, end as int, step as int, k as int);
            assert(k * step <= 256 * i64::MAX) by (nonlinear_arith)
                requires
                    0 <= k <= 256,
                    0 < step <= i64::MAX,
            ;
        }
        let val: i64 = (start as i128 + k as i128 * step as i128) as i64;
        let mut map = Bindings::new();
        map.insert(init_var.to_owned(), IrExpr::Const(val));
        assert(map@ =~= loop_map(init_var@, val));
        let ghost before = stmts_view(result@);
        let mut i: usize = 0;
        assert(stmts_view(result@) =~= before + iteration(body@, init_var@, val).take(0));
        while i < body.entries.len()
            invariant
                i <= body.entries@.len(),
                map@ == loop_map(init_var@, val),
                stmts_view(result@) == before + iteration(body@, init_var@, val).take(i as int),
            decreases body.entries@.len() - i,
        {
            assert(body@[i as int] == body.entries@[i as int]@);
            let ghost cur = stmts_view(result@);
            result.push(substitute_loop_var_in_stmt(&body.entries[i].stmt, &map));
            assert(stmts_view(result@) =~= cur.push(
                stmt_with(body@[i as int].stmt, loop_map(init_var@, val)),
            ));
            assert(stmts_view(result@) =~= before + iteration(body@, init_var@, val).take(i + 1));
            i = i + 1;
        }
        assert(iteration(body@, init_var@, val).take(i as int) =~= iteration(
            body@,
            init_var@,
            val,
        ));
        k = k + 1;
    }
    Some(result)
}

/// Views of a list of statements.
pub open spec fn stmts_view(s: Seq<IrStmt>) -> Seq<StmtM> {
    Seq::new(s.len(), |i: int| s[i]@)
}

// ---------------------------------------------------------------------------------------
// Whole blocks
// ---------------------------------------------------------------------------------------
/// Nesting depth of a statement.
pub open spec fn stmt_depth(s: StmtM) -> nat
    decreases s,
{
    match s {
        StmtM::IfElse { cond, then_body, else_body } => 1 + super::subst::max2(
            block_depth(then_body),
            block_depth(else_body),
        ),
        StmtM::Case { expr, arms, default } => 1 + super::subst::max2(
            arms_depth(arms),
            block_depth(default),
        ),
        StmtM::For { init_var, init_val, cond, step_var, step_expr, body } => 1 + block_depth(body),
        _ => 0,
    }
}

pub open spec fn block_depth(b: Seq<SpannedM>) -> nat
    decreases b,
{
    if b.len() == 0 {
        0
    } else {
        super::subst::max2(block_depth(b.drop_last()), stmt_depth(b.last().stmt))
    }
}

pub open spec fn arms_depth(arms: Seq<CaseArmM>) -> nat
    decreases arms,
{
    if arms.len() == 0 {
        0
    } else {
        super::subst::max2(arms_depth(arms.drop_last()), block_depth(arms.last().body))
    }
}

proof fn lemma_block_depth_at(b: Seq<SpannedM>, i: int)
    requires
        0 <= i < b.len(),
    ensures
        stmt_depth(b[i].stmt) <= block_depth(b),
    decreases b.len(),
{
    if i < b.len() - 1 {
        assert(b.drop_last()[i] == b[i]);
        lemma_block_depth_at(b.drop_last(), i);
    }
}

proof fn lemma_block_depth_bound(b: Seq<SpannedM>, d: nat)
    requires
        forall|i: int| 0 <= i < b.len() ==> stmt_depth((#[trigger] b[i]).stmt) <= d,
    ensures
        block_depth(b) <= d,
    decreases b.len(),
{
    if b.len() > 0 {
        let rest = b.drop_last();
        assert forall|i: int| 0 <= i < rest.len() implies stmt_depth((#[trigger] rest[i]).stmt)
            <= d by {
            assert(rest[i] == b[i]);
        }
        lemma_block_depth_bound(rest, d);
        assert(b[b.len() - 1] == b.last());
    }
}

/// Substituting a loop variable keeps the nesting depth.
proof fn lemma_depth_with(s: StmtM, m: Map<Seq<char>, ExprM>)
    ensures
        stmt_depth(stmt_with(s, m)) == stmt_depth(s),
    decreases s,
{
    match s {
        StmtM::IfElse { cond, then_body, else_body } => {
            lemma_block_depth_with(then_body, m);
            lemma_block_depth_with(else_body, m);
        },
        StmtM::Case { expr, arms, default } => {
            lemma_arms_depth_with(arms, m);
            lemma_block_depth_with(default, m);
        },
        StmtM::For { body, .. } => {
            lemma_block_depth_with(body, m);
        },
        _ => {},
    }
}

proof fn lemma_block_depth_with(b: Seq<SpannedM>, m: Map<Seq<char>, ExprM>)
    ensures
        block_depth(block_with(b, m)) == block_depth(b),
    decreases b,
{
    let out = block_with(b, m);
    if b.len() > 0 {
        lemma_block_depth_with(b.drop_last(), m);
        assert(decreases_to!(b => b[b.len() - 1]));
        lemma_depth_with(b.last().stmt, m);
        assert(out.drop_last() =~= block_with(b.drop_last(), m));
        assert(out.last().stmt == stmt_with(b.last().stmt, m));
    }
}

proof fn lemma_arms_depth_with(arms: Seq<CaseArmM>, m: Map<Seq<char>, ExprM>)
    ensures
        arms_depth(arms_with(arms, m)) == arms_depth(arms),
    decreases arms,
{
    let out = arms_with(arms, m);
    if arms.len() > 0 {
        lemma_arms_depth_with(arms.drop_last(), m);
        assert(decreases_to!(arms => arms[arms.len() - 1]));
        lemma_block_depth_with(arms.last().body, m);
        assert(out.drop_last() =~= arms_with(arms.drop_last(), m));
        assert(out.last().body == block_with(arms.last().body, m));
    }
}

proof fn lemma_iterations_depth(
    body: Seq<SpannedM>,
    var: Seq<char>,
    start: int,
    step: int,
    k: nat,
    i: int,
)
    requires
        0 <= i < iterations(body, var, start, step, k).len(),
    ensures
        stmt_depth(iterations(body, var, start, step, k)[i]) <= block_depth(body),
    decreases k,
{
    if k > 0 {
        let prev = iterations(body, var, start, step, (k - 1) as nat);
        if i < prev.len() {
            lemma_iterations_depth(body, var, start, step, (k - 1) as nat, i);
        } else {
            let val = (start + (k - 1) * step) as i64;
            let j = i - prev.len();
            lemma_depth_with(body[j].stmt, loop_map(var, val));
            lemma_block_depth_at(body, j);
        }
    }
}

/// Statements with one common span.
pub open spec fn spanned(stmts: Seq<StmtM>, span: Span) -> Seq<SpannedM> {
    Seq::new(stmts.len(), |i: int| SpannedM { stmt: stmts[i], span })
}

/// What a `for` statement unrolls to, each statement with the span of the loop.
pub open spec fn for_expansion(s: StmtM, span: Span) -> Option<Seq<SpannedM>> {
    match s {
        StmtM::For { init_var, init_val, cond, step_var, step_expr, body } => match unroll_m(
            init_var,
            init_val,
            cond,
            step_var,
            step_expr,
            body,
        ) {
            Some(stmts) => Some(spanned(stmts, span)),
            None => None,
        },
        _ => None,
    }
}

/// What a loop unrolls to is nested less deeply than the loop.
pub proof fn lemma_expansion_depth(s: StmtM, span: Span)
    requires
        for_expansion(s, span) is Some,
    ensures
        block_depth(for_expansion(s, span)->0) < stmt_depth(s),
{
    let out = for_expansion(s, span)->0;
    if let StmtM::For { init_var, init_val, cond, step_var, step_expr, body } = s {
        let start = init_val->Const_0 as int;
        let step = var_op_const(step_expr, IrBinOp::Add, init_var)->0 as int;
        let n = iteration_count(start, loop_end(cond, init_var)->0, step);
        assert forall|i: int| 0 <= i < out.len() implies stmt_depth((#[trigger] out[i]).stmt)
            <= block_depth(body) by {
            lemma_iterations_depth(body, init_var, start, step, n as nat, i);
        }
        lemma_block_depth_bound(out, block_depth(body));
    }
}

/// The statement with the loops inside it unrolled, as a list of statements.
pub open spec fn unrolled_stmt(s: StmtM, span: Span) -> Seq<SpannedM>
    decreases stmt_depth(s), 0nat, 0nat,
{
    match s {
        StmtM::IfElse { cond, then_body, else_body } => seq![
            SpannedM {
                stmt: StmtM::IfElse {
                    cond,
                    then_body: unrolled(then_body),
                    else_body: unrolled(else_body),
                },
                span,
            },
        ],
        StmtM::Case { expr, arms, default } => seq![
            SpannedM {
                stmt: StmtM::Case {
                    expr,
                    arms: unrolled_arms(arms),
                    default: unrolled(default),
                },
                span,
            },
        ],
        StmtM::For { .. } => match for_expansion(s, span) {
            Some(out) => {
                proof {
                    lemma_expansion_depth(s, span);
                }
                unrolled(out)
            },
            None => seq![SpannedM { stmt: s, span }],
        },
        _ => seq![SpannedM { stmt: s, span }],
    }
}

/// The block with its loops unrolled.
pub open spec fn unrolled(b: Seq<SpannedM>) -> Seq<SpannedM>
    decreases block_depth(b), 1nat, b.len(),
{
    if b.len() == 0 {
        Seq::empty()
    } else {
        unrolled(b.drop_last()) + unrolled_stmt(b.last().stmt, b.last().span)
    }
}

pub open spec fn unrolled_arms(arms: Seq<CaseArmM>) -> Seq<CaseArmM>
    decreases arms_depth(arms), 2nat, arms.len(),
{
    if arms.len() == 0 {
        Seq::empty()
    } else {
        unrolled_arms(arms.drop_last()).push(
            CaseArmM {
                value: arms.last().value,
                body: unrolled(arms.last().body),
                care_mask: arms.last().care_mask,
            },
        )
    }
}

/// How many loops are unrolled in a statement.
pub open spec fn unroll_count_stmt(s: StmtM, span: Span) -> nat
    decreases stmt_depth(s), 0nat, 0nat,
{
    match s {
        StmtM::IfElse { cond, then_body, else_body } => unroll_count(then_body) + unroll_count(
            else_body,
        ),
        StmtM::Case { expr, arms, default } => unroll_count_arms(arms) + unroll_count(default),
        StmtM::For { .. } => match for_expansion(s, span) {
            Some(out) => {
                proof {
                    lemma_expansion_depth(s, span);
                }
                1 + unroll_count(out)
            },
            None => 0,
        },
        _ => 0,
    }
}

pub open spec fn unroll_count(b: Seq<SpannedM>) -> nat
    decreases block_depth(b), 1nat, b.len(),
{
    if b.len() == 0 {
        0
    } else {
        unroll_count(b.drop_last()) + unroll_count_stmt(b.last().stmt, b.last().span)
    }
}

pub open spec fn unroll_count_arms(arms: Seq<CaseArmM>) -> nat
    decreases arms_depth(arms), 2nat, arms.len(),
{
    if arms.len() == 0 {
        0
    } else {
        unroll_count_arms(arms.drop_last()) + unroll_count(arms.last().body)
    }
}

/// Appends the unrolled form of one statement to `out`; returns the number of loops
/// unrolled.
fn unroll_stmt_into(stmt: &IrStmt, span: Span, out: &mut Vec<SpannedStmt>) -> (count: usize)
    ensures
        crate::ir::entries_view(final(out)@) == crate::ir::entries_view(old(out)@)
            + unrolled_stmt(stmt@, span),
        count == super::rewrite::sat(unroll_count_stmt(stmt@, span)),
    decreases stmt_depth(stmt@), 0nat,
{
    let ghost start = crate::ir::entries_view(out@);
    match stmt {
        IrStmt::IfElse { cond, then_body, else_body } => {
            let (t, a) = unroll_block(then_body);
            let (e, b) = unroll_block(else_body);
            out.push(
                SpannedStmt {
                    stmt: IrStmt::IfElse { cond: cond.clone(), then_body: t, else_body: e },
                    span,
                },
            );
            assert(crate::ir::entries_view(out@) =~= start + unrolled_stmt(stmt@, span));
            a.saturating_add(b)
        },
        IrStmt::Case { expr, arms, default } => {
            let ghost model = crate::ir::arms_view(arms@);
            let mut new_arms: Vec<IrCaseArm> = Vec::new();
            let mut count: usize = 0;
            let mut i: usize = 0;
            assert(crate::ir::arms_view(new_arms@) =~= unrolled_arms(model.take(0)));
            while i < arms.len()
                invariant
                    i <= arms@.len(),
                    model == crate::ir::arms_view(arms@),
                    crate::ir::arms_view(new_arms@) == unrolled_arms(model.take(i as int)),
                    count == super::rewrite::sat(unroll_count_arms(model.take(i as int))),
                    arms_depth(model) < stmt_depth(stmt@),
                decreases arms@.len() - i,
            {
                assert(model.take(i + 1).drop_last() == model.take(i as int));
                assert(model.take(i + 1).last() == arms@[i as int]@);
                proof {
                    lemma_arms_depth_at(model, i as int);
                }
                let arm = &arms[i];
                let (body, c) = unroll_block(&arm.body);
                let ghost cur = crate::ir::arms_view(new_arms@);
                new_arms.push(
                    IrCaseArm { value: arm.value.clone(), body, care_mask: arm.care_mask },
                );
                assert(crate::ir::arms_view(new_arms@) =~= cur.push(
                    CaseArmM { value: arm.value@, body: body@, care_mask: arm.care_mask },
                ));
                count = count.saturating_add(c);
                i = i + 1;
            }
            assert(model.take(i as int) == model);
            let (d, c) = unroll_block(default);
            out.push(
                SpannedStmt {
                    stmt: IrStmt::Case { expr: expr.clone(), arms: new_arms, default: d },
                    span,
                },
            );
            assert(crate::ir::entries_view(out@) =~= start + unrolled_stmt(stmt@, span));
            count.saturating_add(c)
        },
        IrStmt::For { init_var, init_val, cond, step_var, step_expr, body } => {
            match try_unroll(
                init_var.as_str(),
                init_val,
                cond,
                step_var.as_str(),
                step_expr,
                body,
            ) {
                Some(stmts) => {
                    let ghost expansion = for_expansion(stmt@, span)->0;
                    assert(for_expansion(stmt@, span) is Some);
                    proof {
                        lemma_expansion_depth(stmt@, span);
                    }
                    let mut count: usize = 0;
                    let mut i: usize = 0;
                    assert(crate::ir::entries_view(out@) =~= start + unrolled(expansion.take(0)));
                    while i < stmts.len()
                        invariant
                            i <= stmts@.len(),
                            expansion == spanned(stmts_view(stmts@), span),
                            block_depth(expansion) < stmt_depth(stmt@),
                            crate::ir::entries_view(out@) == start + unrolled(
                                expansion.take(i as int),
                            ),
                            count == super::rewrite::sat(unroll_count(expansion.take(i as int))),
                        decreases stmts@.len() - i,
                    {
                        assert(expansion.take(i + 1).drop_last() == expansion.take(i as int));
                        assert(expansion.take(i + 1).last() == expansion[i as int]);
                        proof {
                            lemma_block_depth_at(expansion, i as int);
                        }
                        let c = unroll_stmt_into(&stmts[i], span, out);
                        assert(crate::ir::entries_view(out@) =~= start + unrolled(
                            expansion.take(i + 1),
                        ));
                        count = count.saturating_add(c);
                        i = i + 1;
                    }
                    assert(expansion.take(i as int) == expansion);
                    count.saturating_add(1)
                },
                None => {
                    out.push(SpannedStmt { stmt: stmt.clone(), span });
                    assert(crate::ir::entries_view(out@) =~= start + unrolled_stmt(stmt@, span));
                    0
                },
            }
        },
        _ => {
            out.push(SpannedStmt { stmt: stmt.clone(), span });
            assert(crate::ir::entries_view(out@) =~= start + unrolled_stmt(stmt@, span));
            0
        },
    }
}

proof fn lemma_arms_depth_at(arms: Seq<CaseArmM>, i: int)
    requires
        0 <= i < arms.len(),
    ensures
        block_depth(arms[i].body) <= arms_depth(arms),
    decreases arms.len(),
{
    if i < arms.len() - 1 {
        assert(arms.drop_last()[i] == arms[i]);
        lemma_arms_depth_at(arms.drop_last(), i);
    }
}

fn unroll_block(block: &StmtBlock) -> (r: (StmtBlock, usize))
    ensures
        r.0@ == unrolled(block@),
        r.1 == super::rewrite::sat(unroll_count(block@)),
    decreases block_depth(block@), block@.len() + 1,
{
    let mut out: Vec<SpannedStmt> = Vec::new();
    let mut count: usize = 0;
    let mut i: usize = 0;
    assert(crate::ir::entries_view(out@) =~= unrolled(block@.take(0)));
    while i < block.entries.len()
        invariant
            i <= block.entries@.len(),
            crate::ir::entries_view(out@) == unrolled(block@.take(i as int)),
            count == super::rewrite::sat(unroll_count(block@.take(i as int))),
        decreases block.entries@.len() - i,
    {
        assert(block@.take(i + 1).drop_last() == block@.take(i as int));
        assert(block@.take(i + 1).last() == block.entries@[i as int]@);
        assert(block@[i as int] == block.entries@[i as int]@);
        proof {
            lemma_block_depth_at(block@, i as int);
        }
        let c = unroll_stmt_into(&block.entries[i].stmt, block.entries[i].span, &mut out);
        count = count.saturating_add(c);
        i = i + 1;
    }
    assert(block@.take(i as int) == block@);
    (StmtBlock { entries: out }, count)
}

/// Unrolls the loops of a block whose bounds are known, also those that unrolling brings
/// to the surface. Every unrolled statement carries the span of its loop. Returns the
/// number of loops unrolled.
pub fn unroll_loops(block: &mut StmtBlock) -> (count: usize)
    ensures
        final(block)@ == unrolled(old(block)@),
        count == super::rewrite::sat(unroll_count(old(block)@)),
{
    let (out, count) = unroll_block(block);
    *block = out;
    count
}

} // verus!
