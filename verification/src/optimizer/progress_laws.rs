//! Laws: what the passes of the optimizer achieve.
use crate::ir::{AssignM, ExprM, IrBinOp, IrInstance, IrModule, SpannedM, StmtM};
use vstd::prelude::*;

verus! {

/// The loop condition `v < b`, `v <= b` or `v != b`, as the first value that ends it.
pub open spec fn ends_at(cond: ExprM, var: Seq<char>, end: int) -> bool {
    &&& cond is Binary
    &&& *cond->Binary_left == ExprM::Ident(var)
    &&& *cond->Binary_right is Const
    &&& match cond->Binary_op {
        IrBinOp::Lt => end == (*cond->Binary_right)->Const_0,
        IrBinOp::Le => end == (*cond->Binary_right)->Const_0 + 1,
        IrBinOp::Ne => end == (*cond->Binary_right)->Const_0,
        _ => false,
    }
}

/// The step `v + d`.
pub open spec fn steps_by(e: ExprM, var: Seq<char>, d: int) -> bool {
    e is Binary && e->Binary_op == IrBinOp::Add && *e->Binary_left == ExprM::Ident(var)
        && *e->Binary_right is Const && (*e->Binary_right)->Const_0 == d
}

/// A loop that counts up to a bound in `n` steps is unrolled if there are at most 256: its
/// body follows `n` times, and in repetition `k` the variable is replaced by its value then.
pub proof fn law_counting_loop_unrolls(
    var: Seq<char>,
    start: i64,
    cond: ExprM,
    step_expr: ExprM,
    body: Seq<SpannedM>,
    end: int,
    d: int,
    n: nat,
)
    requires
        ends_at(cond, var, end),
        steps_by(step_expr, var, d),
        d > 0,
        n > 0,
        start + (n - 1) * d < end,
        end <= start + n * d,
    ensures
        ({
            let out = super::unroll::unroll_m(var, ExprM::Const(start), cond, var, step_expr, body);
            &&& n > 256 ==> out is None
            &&& n <= 256 ==> out is Some && out->0.len() == n * body.len() && forall|k: int, i: int|
                0 <= k < n && 0 <= i < body.len() ==> out->0[#[trigger] (k * body.len() + i)]
                    == super::unroll::stmt_with(
                    body[i].stmt,
                    Map::<Seq<char>, ExprM>::empty().insert(
                        var,
                        ExprM::Const((start + k * d) as i64),
                    ),
                )
        }),
{
    let a = end - start + d - 1;
    assert((n - 1) * d == n * d - d) by (nonlinear_arith);
    assert(n * d <= a < n * d + d);
    assert((n - 1) * d >= 0) by (nonlinear_arith)
        requires
            n > 0,
            d > 0,
    ;
    vstd::arithmetic::div_mod::lemma_fundamental_div_mod_converse(a, d, n as int, a - n * d);
    assert(n * d == d * n) by (nonlinear_arith);
    assert(super::unroll::iteration_count(start as int, end, d) == n);
    if n <= 256 {
        let out = super::unroll::iterations(body, var, start as int, d, n);
        lemma_repetitions(body, var, start as int, d, n);
        assert forall|k: int, i: int| 0 <= k < n && 0 <= i < body.len() implies out[
        #[trigger] (k * body.len() + i)] == super::unroll::stmt_with(
            body[i].stmt,
            Map::<Seq<char>, ExprM>::empty().insert(var, ExprM::Const((start + k * d) as i64)),
        ) by {
            lemma_repetition(body, var, start as int, d, n, k, i);
        }
    }
}

proof fn lemma_repetitions(body: Seq<SpannedM>, var: Seq<char>, start: int, d: int, n: nat)
    ensures
        super::unroll::iterations(body, var, start, d, n).len() == n * body.len(),
    decreases n,
{
    if n > 0 {
        lemma_repetitions(body, var, start, d, (n - 1) as nat);
        assert((n - 1) * body.len() + body.len() == n * body.len()) by (nonlinear_arith);
    } else {
        assert(0 * body.len() == 0);
    }
}

proof fn lemma_repetition(
    body: Seq<SpannedM>,
    var: Seq<char>,
    start: int,
    d: int,
    n: nat,
    k: int,
    i: int,
)
    requires
        0 <= k < n,
        0 <= i < body.len(),
    ensures
        0 <= k * body.len() + i < n * body.len(),
        super::unroll::iterations(body, var, start, d, n)[k * body.len() + i]
            == super::unroll::stmt_with(
            body[i].stmt,
            Map::<Seq<char>, ExprM>::empty().insert(var, ExprM::Const((start + k * d) as i64)),
        ),
    decreases n,
{
    let m = body.len();
    assert(0 <= k * m + i < n * m) by (nonlinear_arith)
        requires
            0 <= k < n,
            0 <= i < m,
    ;
    lemma_repetitions(body, var, start, d, (n - 1) as nat);
    let before = super::unroll::iterations(body, var, start, d, (n - 1) as nat);
    assert((n - 1) * m + m == n * m) by (nonlinear_arith);
    if k < n - 1 {
        lemma_repetition(body, var, start, d, (n - 1) as nat, k, i);
    } else {
        assert(super::unroll::iterations(body, var, start, d, n)[k * m + i]
            == super::unroll::iteration(body, var, (start + (n - 1) * d) as i64)[i]);
    }
}

/// The expression mentions the name, as a signal or as a memory.
pub open spec fn mentions(e: ExprM, n: Seq<char>) -> bool
    decreases e,
{
    match e {
        ExprM::Const(_) => false,
        ExprM::Ident(x) => x == n,
        ExprM::Binary { left, right, .. } => mentions(*left, n) || mentions(*right, n),
        ExprM::Unary { operand, .. } => mentions(*operand, n),
        ExprM::Signed(x) => mentions(*x, n),
        ExprM::Ternary { cond, then_expr, else_expr } => mentions(*cond, n) || mentions(
            *then_expr,
            n,
        ) || mentions(*else_expr, n),
        ExprM::Concat(es) => exists|i: int| 0 <= i < es.len() && mentions(#[trigger] es[i], n),
        ExprM::PartSelect { value, msb, lsb } => mentions(*value, n) || mentions(*msb, n)
            || mentions(*lsb, n),
        ExprM::MemRead { stem, index } => stem == n || mentions(*index, n),
    }
}

proof fn lemma_mentions(e: ExprM, n: Seq<char>)
    ensures
        super::subst::idents(e).contains(n) <==> mentions(e, n),
    decreases e,
{
    match e {
        ExprM::Binary { left, right, .. } => {
            lemma_mentions(*left, n);
            lemma_mentions(*right, n);
        },
        ExprM::Unary { operand, .. } => {
            lemma_mentions(*operand, n);
        },
        ExprM::Signed(x) => {
            lemma_mentions(*x, n);
        },
        ExprM::Ternary { cond, then_expr, else_expr } => {
            lemma_mentions(*cond, n);
            lemma_mentions(*then_expr, n);
            lemma_mentions(*else_expr, n);
        },
        ExprM::Concat(es) => {
            lemma_mentions_all(es, n);
        },
        ExprM::PartSelect { value, msb, lsb } => {
            lemma_mentions(*value, n);
            lemma_mentions(*msb, n);
            lemma_mentions(*lsb, n);
        },
        ExprM::MemRead { index, .. } => {
            lemma_mentions(*index, n);
        },
        _ => {},
    }
}

proof fn lemma_mentions_all(es: Seq<ExprM>, n: Seq<char>)
    ensures
        super::subst::idents_all(es).contains(n) <==> exists|i: int|
            0 <= i < es.len() && mentions(#[trigger] es[i], n),
    decreases es, es.len(),
{
    if es.len() > 0 {
        let front = es.drop_last();
        let last = es.len() - 1;
        assert(decreases_to!(es => es[last]));
        lemma_mentions(es[last], n);
        lemma_mentions_all(front, n);
        if super::subst::idents_all(front).contains(n) {
            let i = choose|i: int| 0 <= i < front.len() && mentions(#[trigger] front[i], n);
            assert(mentions(es[i], n));
        }
        if exists|i: int| 0 <= i < es.len() && mentions(#[trigger] es[i], n) {
            let i = choose|i: int| 0 <= i < es.len() && mentions(#[trigger] es[i], n);
            if i < last {
                assert(mentions(front[i], n));
            }
        }
    }
}

/// Some right-hand side mentions the name.
pub open spec fn read_by_assigns(s: Seq<AssignM>, n: Seq<char>) -> bool {
    exists|i: int| 0 <= i < s.len() && mentions((#[trigger] s[i]).rhs, n)
}

proof fn lemma_assigns_read(s: Seq<AssignM>, n: Seq<char>)
    ensures
        super::names::assigns_reads(s).contains(n) <==> read_by_assigns(s, n),
    decreases s.len(),
{
    if s.len() > 0 {
        let front = s.drop_last();
        let last = s.len() - 1;
        lemma_assigns_read(front, n);
        lemma_mentions(s[last].rhs, n);
        if read_by_assigns(front, n) {
            let i = choose|i: int| 0 <= i < front.len() && mentions((#[trigger] front[i]).rhs, n);
            assert(mentions(s[i].rhs, n));
        }
        if read_by_assigns(s, n) {
            let i = choose|i: int| 0 <= i < s.len() && mentions((#[trigger] s[i]).rhs, n);
            if i < last {
                assert(mentions(front[i].rhs, n));
            }
        }
    }
}

/// The name `b` under the scope `a`.
pub open spec fn under(a: Seq<char>, b: Seq<char>) -> Seq<char> {
    a + seq!['_', '_'] + b
}

/// The name, or one that it lies under, is mentioned by a right-hand side or used elsewhere
/// in the module, or it is declared there.
pub open spec fn needed(
    ctx: super::names::Surroundings,
    s: Seq<AssignM>,
    n: Seq<char>,
) -> bool {
    ||| ctx.declared.contains(n)
    ||| read_by_assigns(s, n)
    ||| ctx.used.contains(n)
    ||| exists|a: Seq<char>, b: Seq<char>|
        n == #[trigger] under(a, b) && (read_by_assigns(s, a) || ctx.used.contains(a))
}

proof fn lemma_needed(ctx: super::names::Surroundings, s: Seq<AssignM>, n: Seq<char>)
    ensures
        super::names::is_live(ctx, s, n) <==> needed(ctx, s, n),
{
    lemma_assigns_read(s, n);
    let used = super::names::used_names(ctx, s);
    if super::names::scoped_under(n, used) {
        let a = choose|a: Seq<char>| #[trigger]
            used.contains(a) && super::names::is_scope_of(a, n);
        lemma_assigns_read(s, a);
        let b = n.skip(a.len() as int + 2);
        assert(n =~= n.take(a.len() as int) + seq!['_', '_'] + b);
        assert(n == under(a, b));
    }
    if exists|a: Seq<char>, b: Seq<char>|
        n == #[trigger] under(a, b) && (read_by_assigns(s, a) || ctx.used.contains(
            a,
        )) {
        let (a, b) = choose|a: Seq<char>, b: Seq<char>|
            n == #[trigger] under(a, b) && (read_by_assigns(s, a) || ctx.used.contains(
                a,
            ));
        lemma_assigns_read(s, a);
        assert(n.take(a.len() as int) =~= a);
        assert(used.contains(a) && super::names::is_scope_of(a, n));
    }
}

/// Exactly the needed assigns are kept, in their order.
pub proof fn law_needed_assigns_are_kept(
    ctx: super::names::Surroundings,
    s: Seq<AssignM>,
    k: int,
)
    requires
        0 <= k < s.len(),
    ensures
        needed(ctx, s, s[k].lhs) ==> super::names::live_assigns(ctx, s).contains(s[k]),
        super::names::live_assigns(ctx, s).contains(s[k]) ==> needed(ctx, s, s[k].lhs),
        (forall|i: int| 0 <= i < s.len() ==> needed(ctx, s, (#[trigger] s[i]).lhs))
            ==> super::names::live_assigns(ctx, s) == s,
{
    let keep = |a: AssignM| super::names::is_live(ctx, s, a.lhs);
    lemma_needed(ctx, s, s[k].lhs);
    lemma_filtered(s, keep);
    if needed(ctx, s, s[k].lhs) {
        assert(keep(s[k]));
    }
    if forall|i: int| 0 <= i < s.len() ==> needed(ctx, s, (#[trigger] s[i]).lhs) {
        assert forall|i: int| 0 <= i < s.len() implies keep(#[trigger] s[i]) by {
            lemma_needed(ctx, s, s[i].lhs);
        }
        lemma_all_kept(s, keep);
    }
}

proof fn lemma_filtered(s: Seq<AssignM>, keep: spec_fn(AssignM) -> bool)
    ensures
        forall|i: int|
            0 <= i < s.len() && keep(#[trigger] s[i]) ==> s.filter(keep).contains(s[i]),
        forall|a: AssignM| #[trigger] s.filter(keep).contains(a) ==> keep(a),
    decreases s.len(),
{
    reveal(Seq::filter);
    if s.len() > 0 {
        let front = s.drop_last();
        lemma_filtered(front, keep);
        let (f, g) = (front.filter(keep), s.filter(keep));
        assert forall|i: int| 0 <= i < s.len() && keep(#[trigger] s[i]) implies g.contains(
            s[i],
        ) by {
            if i < front.len() {
                assert(front[i] == s[i]);
                let j = choose|j: int| 0 <= j < f.len() && f[j] == s[i];
                assert(g[j] == s[i]);
            } else {
                assert(g[g.len() - 1] == s[i]);
            }
        }
        assert forall|a: AssignM| #[trigger] g.contains(a) implies keep(a) by {
            let j = choose|j: int| 0 <= j < g.len() && g[j] == a;
            if j < f.len() {
                assert(f[j] == a);
                assert(f.contains(a));
            }
        }
    }
}

proof fn lemma_all_kept(s: Seq<AssignM>, keep: spec_fn(AssignM) -> bool)
    requires
        forall|i: int| 0 <= i < s.len() ==> keep(#[trigger] s[i]),
    ensures
        s.filter(keep) == s,
    decreases s.len(),
{
    reveal(Seq::filter);
    if s.len() > 0 {
        let front = s.drop_last();
        assert forall|i: int| 0 <= i < front.len() implies keep(#[trigger] front[i]) by {
            assert(keep(s[i]));
        }
        lemma_all_kept(front, keep);
        assert(keep(s[s.len() - 1]));
        assert(front.push(s.last()) =~= s);
    }
    assert(s.filter(keep) =~= s);
}

/// The statement mentions the name: as a target, or in one of its expressions.
pub open spec fn stmt_mentions(s: StmtM, n: Seq<char>) -> bool
    decreases s,
{
    match s {
        StmtM::BlockingAssign { lhs, rhs } => lhs == n || mentions(rhs, n),
        StmtM::NonBlockingAssign { lhs, rhs } => lhs == n || mentions(rhs, n),
        StmtM::MemAssign { stem, index, rhs, .. } => stem == n || mentions(index, n) || mentions(
            rhs,
            n,
        ),
        StmtM::IfElse { cond, then_body, else_body } => mentions(cond, n) || (exists|i: int|
            0 <= i < then_body.len() && stmt_mentions((#[trigger] then_body[i]).stmt, n)) || (
        exists|i: int|
            0 <= i < else_body.len() && stmt_mentions((#[trigger] else_body[i]).stmt, n)),
        StmtM::Case { expr, arms, default } => mentions(expr, n) || (exists|i: int|
            0 <= i < arms.len() && (mentions((#[trigger] arms[i]).value, n) || exists|j: int|
                0 <= j < arms[i].body.len() && stmt_mentions((#[trigger] arms[i].body[j]).stmt, n)))
            || (exists|i: int|
            0 <= i < default.len() && stmt_mentions((#[trigger] default[i]).stmt, n)),
        StmtM::For { init_val, cond, step_expr, body, .. } => mentions(init_val, n) || mentions(
            cond,
            n,
        ) || mentions(step_expr, n) || (exists|i: int|
            0 <= i < body.len() && stmt_mentions((#[trigger] body[i]).stmt, n)),
        StmtM::Delay(_) => false,
        StmtM::SystemTask { args, .. } => exists|i: int|
            0 <= i < args.len() && mentions(#[trigger] args[i], n),
    }
}

/// Some statement of the block mentions the name.
pub open spec fn block_mentions(b: Seq<SpannedM>, n: Seq<char>) -> bool {
    exists|i: int| 0 <= i < b.len() && stmt_mentions((#[trigger] b[i]).stmt, n)
}

/// Some arm mentions the name.
pub open spec fn arms_mention(arms: Seq<crate::ir::CaseArmM>, n: Seq<char>) -> bool {
    exists|i: int|
        0 <= i < arms.len() && (mentions((#[trigger] arms[i]).value, n) || block_mentions(
            arms[i].body,
            n,
        ))
}

proof fn lemma_stmt_mentions(s: StmtM, n: Seq<char>)
    ensures
        super::names::stmt_idents(s).contains(n) <==> stmt_mentions(s, n),
    decreases s, 0int,
{
    match s {
        StmtM::BlockingAssign { lhs, rhs } => {
            lemma_mentions(rhs, n);
        },
        StmtM::NonBlockingAssign { lhs, rhs } => {
            lemma_mentions(rhs, n);
        },
        StmtM::MemAssign { stem, index, rhs, .. } => {
            lemma_mentions(index, n);
            lemma_mentions(rhs, n);
        },
        StmtM::IfElse { cond, then_body, else_body } => {
            lemma_mentions(cond, n);
            lemma_block_mentions(then_body, n);
            lemma_block_mentions(else_body, n);
        },
        StmtM::Case { expr, arms, default } => {
            lemma_mentions(expr, n);
            lemma_arms_mention(arms, n);
            lemma_block_mentions(default, n);
            if stmt_mentions(s, n) && !mentions(expr, n) && !block_mentions(default, n) {
                let i = choose|i: int|
                    0 <= i < arms.len() && (mentions((#[trigger] arms[i]).value, n) || exists|j: int|
                        0 <= j < arms[i].body.len() && stmt_mentions(
                            (#[trigger] arms[i].body[j]).stmt,
                            n,
                        ));
                assert(mentions(arms[i].value, n) || block_mentions(arms[i].body, n));
            }
        },
        StmtM::For { init_val, cond, step_expr, body, .. } => {
            lemma_mentions(init_val, n);
            lemma_mentions(cond, n);
            lemma_mentions(step_expr, n);
            lemma_block_mentions(body, n);
        },
        StmtM::SystemTask { args, .. } => {
            lemma_mentions_all(args, n);
        },
        _ => {},
    }
}

proof fn lemma_block_mentions(b: Seq<SpannedM>, n: Seq<char>)
    ensures
        super::names::block_idents(b).contains(n) <==> block_mentions(b, n),
    decreases b, b.len(),
{
    if b.len() > 0 {
        let front = b.drop_last();
        let last = b.len() - 1;
        assert(decreases_to!(b => b[last]));
        lemma_stmt_mentions(b[last].stmt, n);
        lemma_block_mentions(front, n);
        if block_mentions(front, n) {
            let i = choose|i: int| 0 <= i < front.len() && stmt_mentions(
                (#[trigger] front[i]).stmt,
                n,
            );
            assert(stmt_mentions(b[i].stmt, n));
        }
        if block_mentions(b, n) {
            let i = choose|i: int| 0 <= i < b.len() && stmt_mentions((#[trigger] b[i]).stmt, n);
            if i < last {
                assert(stmt_mentions(front[i].stmt, n));
            }
        }
    }
}

proof fn lemma_arms_mention(arms: Seq<crate::ir::CaseArmM>, n: Seq<char>)
    ensures
        super::names::arms_idents(arms).contains(n) <==> arms_mention(arms, n),
    decreases arms, arms.len(),
{
    if arms.len() > 0 {
        let front = arms.drop_last();
        let last = arms.len() - 1;
        assert(decreases_to!(arms => arms[last]));
        lemma_mentions(arms[last].value, n);
        lemma_block_mentions(arms[last].body, n);
        lemma_arms_mention(front, n);
        if arms_mention(front, n) {
            let i = choose|i: int|
                0 <= i < front.len() && (mentions((#[trigger] front[i]).value, n) || block_mentions(
                    front[i].body,
                    n,
                ));
            assert(arms[i] == front[i]);
        }
        if arms_mention(arms, n) {
            let i = choose|i: int|
                0 <= i < arms.len() && (mentions((#[trigger] arms[i]).value, n) || block_mentions(
                    arms[i].body,
                    n,
                ));
            if i < last {
                assert(front[i] == arms[i]);
            }
        }
    }
}

/// A name is used by a module, apart from its assigns, where a statement of a process
/// mentions it or a connection of an instance does, and it is declared as a port or a net.
pub proof fn law_surroundings(m: IrModule, n: Seq<char>)
    ensures
        super::names::surroundings(m).declared.contains(n) <==> (exists|i: int|
            0 <= i < m.ports@.len() && (#[trigger] m.ports@[i]).name@ == n) || (exists|i: int|
            0 <= i < m.nets@.len() && (#[trigger] m.nets@[i]).name@ == n),
        super::names::surroundings(m).used.contains(n) <==> (exists|i: int|
            0 <= i < m.always_blocks@.len() && block_mentions(
                (#[trigger] m.always_blocks@[i]).stmts@,
                n,
            )) || (exists|i: int|
            0 <= i < m.initial_blocks@.len() && block_mentions(
                (#[trigger] m.initial_blocks@[i]).stmts@,
                n,
            )) || (exists|i: int|
            0 <= i < m.instances@.len() && connects((#[trigger] m.instances@[i]), n)),
{
    lemma_always(m.always_blocks@, n);
    lemma_initial(m.initial_blocks@, n);
    lemma_instances(m.instances@, n);
}

/// A connection of the instance mentions the name.
pub open spec fn connects(inst: IrInstance, n: Seq<char>) -> bool {
    exists|j: int|
        0 <= j < inst.connections@.len() && mentions((#[trigger] inst.connections@[j]).expr@, n)
}

proof fn lemma_always(s: Seq<crate::ir::IrAlways>, n: Seq<char>)
    ensures
        super::names::always_idents(s).contains(n) <==> exists|i: int|
            0 <= i < s.len() && block_mentions((#[trigger] s[i]).stmts@, n),
    decreases s.len(),
{
    if s.len() > 0 {
        let front = s.drop_last();
        let last = s.len() - 1;
        lemma_always(front, n);
        lemma_block_mentions(s[last].stmts@, n);
        if super::names::always_idents(front).contains(n) {
            let i = choose|i: int| 0 <= i < front.len() && block_mentions(
                (#[trigger] front[i]).stmts@,
                n,
            );
            assert(block_mentions(s[i].stmts@, n));
        }
        if exists|i: int| 0 <= i < s.len() && block_mentions((#[trigger] s[i]).stmts@, n) {
            let i = choose|i: int| 0 <= i < s.len() && block_mentions((#[trigger] s[i]).stmts@, n);
            if i < last {
                assert(block_mentions(front[i].stmts@, n));
            }
        }
    }
}

proof fn lemma_initial(s: Seq<crate::ir::IrInitial>, n: Seq<char>)
    ensures
        super::names::initial_idents(s).contains(n) <==> exists|i: int|
            0 <= i < s.len() && block_mentions((#[trigger] s[i]).stmts@, n),
    decreases s.len(),
{
    if s.len() > 0 {
        let front = s.drop_last();
        let last = s.len() - 1;
        lemma_initial(front, n);
        lemma_block_mentions(s[last].stmts@, n);
        if super::names::initial_idents(front).contains(n) {
            let i = choose|i: int| 0 <= i < front.len() && block_mentions(
                (#[trigger] front[i]).stmts@,
                n,
            );
            assert(block_mentions(s[i].stmts@, n));
        }
        if exists|i: int| 0 <= i < s.len() && block_mentions((#[trigger] s[i]).stmts@, n) {
            let i = choose|i: int| 0 <= i < s.len() && block_mentions((#[trigger] s[i]).stmts@, n);
            if i < last {
                assert(block_mentions(front[i].stmts@, n));
            }
        }
    }
}

proof fn lemma_conns(s: Seq<crate::ir::IrPortConn>, n: Seq<char>)
    ensures
        super::names::conns_idents(s).contains(n) <==> exists|i: int|
            0 <= i < s.len() && mentions((#[trigger] s[i]).expr@, n),
    decreases s.len(),
{
    if s.len() > 0 {
        let front = s.drop_last();
        let last = s.len() - 1;
        lemma_conns(front, n);
        lemma_mentions(s[last].expr@, n);
        if super::names::conns_idents(front).contains(n) {
            let i = choose|i: int| 0 <= i < front.len() && mentions((#[trigger] front[i]).expr@, n);
            assert(mentions(s[i].expr@, n));
        }
        if exists|i: int| 0 <= i < s.len() && mentions((#[trigger] s[i]).expr@, n) {
            let i = choose|i: int| 0 <= i < s.len() && mentions((#[trigger] s[i]).expr@, n);
            if i < last {
                assert(mentions(front[i].expr@, n));
            }
        }
    }
}

proof fn lemma_instances(s: Seq<IrInstance>, n: Seq<char>)
    ensures
        super::names::instances_idents(s).contains(n) <==> exists|i: int|
            0 <= i < s.len() && connects(#[trigger] s[i], n),
    decreases s.len(),
{
    if s.len() > 0 {
        let front = s.drop_last();
        let last = s.len() - 1;
        lemma_instances(front, n);
        lemma_conns(s[last].connections@, n);
        if super::names::instances_idents(front).contains(n) {
            let i = choose|i: int| 0 <= i < front.len() && connects(#[trigger] front[i], n);
            assert(connects(s[i], n));
        }
        if exists|i: int| 0 <= i < s.len() && connects(#[trigger] s[i], n) {
            let i = choose|i: int| 0 <= i < s.len() && connects(#[trigger] s[i], n);
            if i < last {
                assert(connects(front[i], n));
            }
        }
    }
}

proof fn lemma_const_map(s: Seq<AssignM>, i: int)
    requires
        0 <= i < s.len(),
        s[i].rhs is Const,
        forall|k: int|
            i < k < s.len() && (#[trigger] s[k]).lhs == s[i].lhs ==> !(s[k].rhs is Const),
    ensures
        super::passes::const_map(s).contains_key(s[i].lhs),
        super::passes::const_map(s)[s[i].lhs] == s[i].rhs,
    decreases s.len(),
{
    let front = s.drop_last();
    let entries = super::passes::const_entries(s);
    if s.last().rhs is Const {
        assert(entries.drop_last() =~= super::passes::const_entries(front));
    }
    if i < s.len() - 1 {
        assert(front[i] == s[i]);
        assert(s[s.len() - 1] == s.last());
        assert forall|k: int|
            i < k < front.len() && (#[trigger] front[k]).lhs == front[i].lhs implies !(
        front[k].rhs is Const) by {
            assert(s[k].lhs == s[i].lhs);
        }
        lemma_const_map(front, i);
    }
}

/// A signal that is assigned a constant is replaced by it wherever it is read.
pub proof fn law_constants_are_propagated(s: Seq<AssignM>, i: int, j: int)
    requires
        0 <= i < s.len(),
        0 <= j < s.len(),
        s[i].rhs is Const,
        forall|k: int|
            i < k < s.len() && (#[trigger] s[k]).lhs == s[i].lhs ==> !(s[k].rhs is Const),
    ensures
        ({
            let out = super::subst::subst_assigns(s, super::passes::const_map(s), false);
            &&& out.len() == s.len()
            &&& out[j].lhs == s[j].lhs
            &&& s[j].rhs == ExprM::Ident(s[i].lhs) ==> out[j].rhs == s[i].rhs
            &&& !super::subst::reads(out[j].rhs).contains(s[i].lhs)
        }),
{
    let m = super::passes::const_map(s);
    lemma_const_map(s, i);
    super::subst::lemma_reads_subst(s[j].rhs, m, s[i].lhs);
    lemma_map_is_constant(s);
}

proof fn lemma_map_is_constant(s: Seq<AssignM>)
    ensures
        forall|n: Seq<char>| #[trigger]
            super::passes::const_map(s).contains_key(n) ==> super::passes::const_map(s)[n] is Const,
    decreases s.len(),
{
    if s.len() > 0 {
        let entries = super::passes::const_entries(s);
        lemma_map_is_constant(s.drop_last());
        if s.last().rhs is Const {
            assert(entries.drop_last() =~= super::passes::const_entries(s.drop_last()));
        }
    }
}

proof fn lemma_first_seen(seen: Seq<(ExprM, Seq<char>)>, rhs: ExprM, lhs: Seq<char>, k: int)
    requires
        0 <= k < seen.len(),
        seen[k].0 == rhs && seen[k].1 != lhs,
        forall|j: int| 0 <= j < k ==> (#[trigger] seen[j]).0 != rhs,
    ensures
        super::passes::first_match(seen, rhs, lhs) == Some(seen[k].1),
    decreases seen.len(),
{
    let front = seen.drop_last();
    assert forall|j: int| 0 <= j < front.len() implies front[j] == seen[j] by {}
    if k < seen.len() - 1 {
        lemma_first_seen(front, rhs, lhs, k);
    } else {
        lemma_not_seen(front, rhs, lhs);
    }
}

proof fn lemma_not_seen(seen: Seq<(ExprM, Seq<char>)>, rhs: ExprM, lhs: Seq<char>)
    requires
        forall|j: int| 0 <= j < seen.len() ==> (#[trigger] seen[j]).0 != rhs,
    ensures
        super::passes::first_match(seen, rhs, lhs) is None,
    decreases seen.len(),
{
    if seen.len() > 0 {
        assert(seen[seen.len() - 1].0 != rhs);
        let front = seen.drop_last();
        assert forall|j: int| 0 <= j < front.len() implies (#[trigger] front[j]).0 != rhs by {
            assert(seen[j].0 != rhs);
        }
        lemma_not_seen(front, rhs, lhs);
    }
}

/// What is recorded for a computation: nothing before its first assign, and the name of that
/// one from there on.
proof fn lemma_recorded(s: Seq<AssignM>, i: int, n: int) -> (k: int)
    requires
        0 <= i < n <= s.len(),
        !(s[i].rhs is Const) && !(s[i].rhs is Ident),
        forall|j: int| 0 <= j < i ==> (#[trigger] s[j]).rhs != s[i].rhs,
    ensures
        ({
            let seen = super::passes::cse_scan(s.take(n)).seen;
            &&& 0 <= k < seen.len()
            &&& seen[k] == (s[i].rhs, s[i].lhs)
            &&& forall|j: int| 0 <= j < k ==> (#[trigger] seen[j]).0 != s[i].rhs
        }),
    decreases n,
{
    let now = s.take(n);
    assert(now.drop_last() =~= s.take(n - 1));
    assert(now.last() == s[n - 1]);
    let before = super::passes::cse_scan(s.take(n - 1)).seen;
    if i == n - 1 {
        lemma_unrecorded(s, s[i].rhs, i);
        lemma_not_seen(before, s[i].rhs, s[i].lhs);
        before.len() as int
    } else {
        let k = lemma_recorded(s, i, n - 1);
        let seen = super::passes::cse_scan(now).seen;
        assert forall|j: int| 0 <= j < before.len() implies seen[j] == before[j] by {}
        k
    }
}

proof fn lemma_unrecorded(s: Seq<AssignM>, rhs: ExprM, n: int)
    requires
        0 <= n <= s.len(),
        forall|j: int| 0 <= j < n ==> (#[trigger] s[j]).rhs != rhs,
    ensures
        forall|k: int|
            0 <= k < super::passes::cse_scan(s.take(n)).seen.len() ==> (
            #[trigger] super::passes::cse_scan(s.take(n)).seen[k]).0 != rhs,
    decreases n,
{
    if n > 0 {
        assert(s.take(n).drop_last() =~= s.take(n - 1));
        assert(s.take(n).last() == s[n - 1]);
        lemma_unrecorded(s, rhs, n - 1);
        let before = super::passes::cse_scan(s.take(n - 1)).seen;
        let seen = super::passes::cse_scan(s.take(n)).seen;
        assert forall|k: int| 0 <= k < seen.len() implies (#[trigger] seen[k]).0 != rhs by {
            if k < before.len() {
                assert(seen[k] == before[k]);
            } else {
                assert(s[n - 1].rhs != rhs);
            }
        }
    }
}

/// A computation that was assigned to another name before is renamed to the first one of
/// those; constants and single names are not.
pub proof fn law_repeated_computation_is_renamed(s: Seq<AssignM>, i: int, j: int)
    requires
        0 <= i < j < s.len(),
        s[i].rhs == s[j].rhs,
        !(s[i].rhs is Const) && !(s[i].rhs is Ident),
        s[i].lhs != s[j].lhs,
        forall|k: int| 0 <= k < i ==> (#[trigger] s[k]).rhs != s[i].rhs,
    ensures
        super::passes::cse_scan(s).rename.contains((s[j].lhs, ExprM::Ident(s[i].lhs))),
{
    let k = lemma_recorded(s, i, j);
    let before = super::passes::cse_scan(s.take(j));
    lemma_first_seen(before.seen, s[j].rhs, s[j].lhs, k);
    assert(s.take(j + 1).drop_last() =~= s.take(j));
    assert(s.take(j + 1).last() == s[j]);
    let now = super::passes::cse_scan(s.take(j + 1)).rename;
    assert(now[now.len() - 1] == (s[j].lhs, ExprM::Ident(s[i].lhs)));
    lemma_renames_stay(s, j + 1, s.len() as int, (s[j].lhs, ExprM::Ident(s[i].lhs)));
    assert(s.take(s.len() as int) =~= s);
}

proof fn lemma_renames_stay(s: Seq<AssignM>, m: int, n: int, entry: (Seq<char>, ExprM))
    requires
        0 <= m <= n <= s.len(),
        super::passes::cse_scan(s.take(m)).rename.contains(entry),
    ensures
        super::passes::cse_scan(s.take(n)).rename.contains(entry),
    decreases n - m,
{
    if m < n {
        lemma_renames_stay(s, m, n - 1, entry);
        assert(s.take(n).drop_last() =~= s.take(n - 1));
        let before = super::passes::cse_scan(s.take(n - 1)).rename;
        let now = super::passes::cse_scan(s.take(n)).rename;
        let k = choose|k: int| 0 <= k < before.len() && before[k] == entry;
        assert(now[k] == entry);
    }
}

/// An instance is dissolved where the last module of its name has at most sixteen assigns
/// and no instances or processes of its own; every other one stays, in order.
pub proof fn law_small_modules_are_inlined(
    mods: Seq<IrModule>,
    parent: IrModule,
    insts: Seq<IrInstance>,
    x: IrInstance,
    k: int,
)
    requires
        0 <= k < mods.len(),
        mods[k].name@ == x.module_name@,
        forall|j: int| k < j < mods.len() ==> (#[trigger] mods[j]).name@ != x.module_name@,
    ensures
        ({
            let before = super::inline::inline_instances(mods, parent, insts);
            let after = super::inline::inline_instances(mods, parent, insts.push(x));
            let m = mods[k];
            if m.assigns@.len() <= 16 && m.instances@.len() == 0 && m.always_blocks@.len() == 0
                && m.initial_blocks@.len() == 0 {
                &&& after.count == before.count + 1
                &&& after.instances == before.instances
                &&& after.assigns.len() == before.assigns.len() + m.assigns@.len()
                &&& after.mem_arrays.len() == before.mem_arrays.len() + m.mem_arrays@.len()
                &&& forall|i: int|
                    0 <= i < before.assigns.len() ==> (#[trigger] after.assigns[i])
                        == before.assigns[i]
            } else {
                &&& after.count == before.count
                &&& after.instances == before.instances.push(x)
                &&& after.assigns == before.assigns
                &&& after.nets == before.nets
                &&& after.mem_arrays == before.mem_arrays
            }
        }),
{
    assert(insts.push(x).drop_last() =~= insts);
    lemma_last_module(mods, x.module_name@, k);
}

proof fn lemma_last_module(mods: Seq<IrModule>, name: Seq<char>, k: int)
    requires
        0 <= k < mods.len(),
        mods[k].name@ == name,
        forall|j: int| k < j < mods.len() ==> (#[trigger] mods[j]).name@ != name,
    ensures
        super::inline::find_module(mods, name) == Some(k),
    decreases mods.len(),
{
    if k < mods.len() - 1 {
        assert(mods[mods.len() - 1].name@ != name);
        let front = mods.drop_last();
        assert forall|j: int| 0 <= j < front.len() implies front[j] == mods[j] by {}
        lemma_last_module(front, name, k);
    }
}

/// A name of an inlined module becomes the expression that it is connected to, or its own
/// name under the instance.
pub proof fn law_inlined_names(
    name: Seq<char>,
    stem: Seq<char>,
    index: ExprM,
    m: Map<Seq<char>, ExprM>,
    prefix: Seq<char>,
)
    ensures
        m.contains_key(name) ==> super::inline::lifted(ExprM::Ident(name), m, prefix) == m[name],
        !m.contains_key(name) ==> super::inline::lifted(ExprM::Ident(name), m, prefix)
            == ExprM::Ident(prefix + name),
        super::inline::lifted(
            (ExprM::MemRead { stem, index: Box::new(index) }),
            m,
            prefix,
        ) == (ExprM::MemRead {
            stem: prefix + stem,
            index: Box::new(super::inline::lifted(index, m, prefix)),
        }),
{
}

/// No loop that can be unrolled is left, neither here nor in the arms of conditionals.
pub open spec fn settled_stmt(s: StmtM) -> bool
    decreases s,
{
    match s {
        StmtM::IfElse { then_body, else_body, .. } => (forall|i: int|
            0 <= i < then_body.len() ==> settled_stmt((#[trigger] then_body[i]).stmt)) && (forall|
            i: int,
        |
            0 <= i < else_body.len() ==> settled_stmt((#[trigger] else_body[i]).stmt)),
        StmtM::Case { arms, default, .. } => (forall|i: int, j: int|
            0 <= i < arms.len() && 0 <= j < arms[i].body.len() ==> settled_stmt(
                (#[trigger] arms[i].body[j]).stmt,
            )) && (forall|i: int|
            0 <= i < default.len() ==> settled_stmt((#[trigger] default[i]).stmt)),
        StmtM::For { init_var, init_val, cond, step_var, step_expr, body } => super::unroll::unroll_m(
            init_var,
            init_val,
            cond,
            step_var,
            step_expr,
            body,
        ) is None,
        _ => true,
    }
}

/// No loop of the block is left that can be unrolled.
pub open spec fn settled(b: Seq<SpannedM>) -> bool {
    forall|i: int| 0 <= i < b.len() ==> settled_stmt((#[trigger] b[i]).stmt)
}

/// Unrolling leaves no loop that could be unrolled, however deep it was, and a block without
/// one stays as it is.
pub proof fn law_no_countable_loop_remains(b: Seq<SpannedM>)
    ensures
        settled(super::unroll::unrolled(b)),
        settled(b) ==> super::unroll::unrolled(b) == b,
    decreases super::unroll::block_depth(b), 1nat, b.len(),
{
    let out = super::unroll::unrolled(b);
    if b.len() > 0 {
        let front = b.drop_last();
        let last = b[b.len() - 1];
        law_no_countable_loop_remains(front);
        lemma_stmt_settles(last.stmt, last.span);
        let (x, y) = (
            super::unroll::unrolled(front),
            super::unroll::unrolled_stmt(last.stmt, last.span),
        );
        assert forall|i: int| 0 <= i < out.len() implies settled_stmt((#[trigger] out[i]).stmt) by {
            if i < x.len() {
                assert(out[i] == x[i]);
            } else {
                assert(out[i] == y[i - x.len()]);
            }
        }
        if settled(b) {
            assert forall|i: int| 0 <= i < front.len() implies settled_stmt(
                (#[trigger] front[i]).stmt,
            ) by {
                assert(settled_stmt(b[i].stmt));
            }
            assert(settled_stmt(last.stmt));
            assert(front + seq![last] =~= b);
        }
    } else {
        assert(out =~= b);
    }
}

proof fn lemma_stmt_settles(s: StmtM, span: crate::source_map::Span)
    ensures
        settled(super::unroll::unrolled_stmt(s, span)),
        settled_stmt(s) ==> super::unroll::unrolled_stmt(s, span) == seq![
            SpannedM { stmt: s, span },
        ],
    decreases super::unroll::stmt_depth(s), 0nat, 0nat,
{
    match s {
        StmtM::IfElse { cond, then_body, else_body } => {
            law_no_countable_loop_remains(then_body);
            law_no_countable_loop_remains(else_body);
            if settled_stmt(s) {
                assert(settled(then_body) && settled(else_body));
            }
        },
        StmtM::Case { expr, arms, default } => {
            lemma_arms_settle(arms);
            law_no_countable_loop_remains(default);
            let rs = super::unroll::unrolled_arms(arms);
            assert forall|i: int, j: int| 0 <= i < rs.len() && 0 <= j < rs[i].body.len() implies settled_stmt(
                (#[trigger] rs[i].body[j]).stmt,
            ) by {
                assert(settled(rs[i].body));
            }
            if settled_stmt(s) {
                assert(settled(default));
                assert forall|i: int| 0 <= i < arms.len() implies settled((#[trigger] arms[i]).body) by {
                    assert forall|j: int| 0 <= j < arms[i].body.len() implies settled_stmt(
                        (#[trigger] arms[i].body[j]).stmt,
                    ) by {}
                }
            }
        },
        StmtM::For { .. } => {
            if let Some(out) = super::unroll::for_expansion(s, span) {
                super::unroll::lemma_expansion_depth(s, span);
                law_no_countable_loop_remains(out);
            }
        },
        _ => {},
    }
}

proof fn lemma_arms_settle(arms: Seq<crate::ir::CaseArmM>)
    ensures
        super::unroll::unrolled_arms(arms).len() == arms.len(),
        forall|i: int|
            0 <= i < arms.len() ==> settled((#[trigger] super::unroll::unrolled_arms(arms)[i]).body),
        (forall|i: int| 0 <= i < arms.len() ==> settled((#[trigger] arms[i]).body))
            ==> super::unroll::unrolled_arms(arms) == arms,
    decreases super::unroll::arms_depth(arms), 2nat, arms.len(),
{
    let rs = super::unroll::unrolled_arms(arms);
    if arms.len() > 0 {
        let front = arms.drop_last();
        let last = arms[arms.len() - 1];
        lemma_arms_settle(front);
        law_no_countable_loop_remains(last.body);
        let x = super::unroll::unrolled_arms(front);
        assert forall|i: int| 0 <= i < arms.len() implies settled((#[trigger] rs[i]).body) by {
            if i < x.len() {
                assert(rs[i] == x[i]);
            }
        }
        if forall|i: int| 0 <= i < arms.len() ==> settled((#[trigger] arms[i]).body) {
            assert forall|i: int| 0 <= i < front.len() implies settled((#[trigger] front[i]).body) by {
                assert(settled(arms[i].body));
            }
            assert(settled(last.body));
            assert(front.push(last) =~= arms);
        }
    } else {
        assert(rs =~= arms);
    }
}

/// No expression of the statement reads a key of the map, but inside a loop over a variable of
/// that name.
pub open spec fn fixed(s: StmtM, m: Map<Seq<char>, ExprM>) -> bool
    decreases s,
{
    match s {
        StmtM::BlockingAssign { rhs, .. } => reads_none(rhs, m),
        StmtM::NonBlockingAssign { rhs, .. } => reads_none(rhs, m),
        StmtM::MemAssign { index, rhs, .. } => reads_none(index, m) && reads_none(rhs, m),
        StmtM::IfElse { cond, then_body, else_body } => reads_none(cond, m) && (forall|i: int|
            0 <= i < then_body.len() ==> fixed((#[trigger] then_body[i]).stmt, m)) && (forall|
            i: int,
        |
            0 <= i < else_body.len() ==> fixed((#[trigger] else_body[i]).stmt, m)),
        StmtM::Case { expr, arms, default } => reads_none(expr, m) && (forall|i: int|
            0 <= i < arms.len() ==> reads_none((#[trigger] arms[i]).value, m)) && (forall|
            i: int,
            j: int,
        |
            0 <= i < arms.len() && 0 <= j < arms[i].body.len() ==> fixed(
                (#[trigger] arms[i].body[j]).stmt,
                m,
            )) && (forall|i: int|
            0 <= i < default.len() ==> fixed((#[trigger] default[i]).stmt, m)),
        StmtM::For { init_var, init_val, cond, step_expr, body, .. } => reads_none(init_val, m) && (
        m.contains_key(init_var) || (reads_none(cond, m) && reads_none(step_expr, m) && (forall|
            i: int,
        |
            0 <= i < body.len() ==> fixed((#[trigger] body[i]).stmt, m)))),
        StmtM::Delay(_) => true,
        StmtM::SystemTask { args, .. } => forall|i: int|
            0 <= i < args.len() ==> reads_none(#[trigger] args[i], m),
    }
}

/// The expression reads no key of the map.
pub open spec fn reads_none(e: ExprM, m: Map<Seq<char>, ExprM>) -> bool {
    forall|n: Seq<char>| #[trigger] super::subst::reads(e).contains(n) ==> !m.contains_key(n)
}

/// The map holds constants alone.
pub open spec fn all_constant(m: Map<Seq<char>, ExprM>) -> bool {
    forall|n: Seq<char>| #[trigger] m.contains_key(n) ==> m[n] is Const
}

proof fn lemma_expr_fixed(e: ExprM, m: Map<Seq<char>, ExprM>)
    requires
        all_constant(m),
    ensures
        reads_none(super::subst::subst(e, m), m),
{
    let r = super::subst::subst(e, m);
    assert forall|n: Seq<char>| #[trigger] super::subst::reads(r).contains(n) implies !m.contains_key(
        n,
    ) by {
        super::subst::lemma_reads_subst(e, m, n);
        if m.contains_key(n) {
            let k = choose|k: Seq<char>| #[trigger]
                m.contains_key(k) && super::subst::reads(e).contains(k) && super::subst::reads(
                    m[k],
                ).contains(n);
            assert(m[k] is Const);
        }
    }
}

/// Writing constants in place of names leaves no read of those names in a statement, however
/// deep, but inside a loop over a variable of that name.
pub proof fn law_no_loop_variable_remains(s: StmtM, m: Map<Seq<char>, ExprM>)
    requires
        all_constant(m),
    ensures
        fixed(super::unroll::stmt_with(s, m), m),
    decreases s, 0int,
{
    match s {
        StmtM::BlockingAssign { rhs, .. } => {
            lemma_expr_fixed(rhs, m);
        },
        StmtM::NonBlockingAssign { rhs, .. } => {
            lemma_expr_fixed(rhs, m);
        },
        StmtM::MemAssign { index, rhs, .. } => {
            lemma_expr_fixed(index, m);
            lemma_expr_fixed(rhs, m);
        },
        StmtM::IfElse { cond, then_body, else_body } => {
            lemma_expr_fixed(cond, m);
            lemma_block_fixed(then_body, m);
            lemma_block_fixed(else_body, m);
        },
        StmtM::Case { expr, arms, default } => {
            lemma_expr_fixed(expr, m);
            lemma_block_fixed(default, m);
            let rs = super::unroll::arms_with(arms, m);
            assert forall|i: int| 0 <= i < rs.len() implies reads_none((#[trigger] rs[i]).value, m)
                && block_fixed(rs[i].body, m) by {
                assert(decreases_to!(arms => arms[i]));
                lemma_expr_fixed(arms[i].value, m);
                lemma_block_fixed(arms[i].body, m);
            }
            assert forall|i: int, j: int| 0 <= i < rs.len() && 0 <= j < rs[i].body.len() implies fixed(
                (#[trigger] rs[i].body[j]).stmt,
                m,
            ) by {
                assert(block_fixed(rs[i].body, m));
            }
        },
        StmtM::For { init_val, cond, step_expr, body, .. } => {
            lemma_expr_fixed(init_val, m);
            lemma_expr_fixed(cond, m);
            lemma_expr_fixed(step_expr, m);
            lemma_block_fixed(body, m);
        },
        StmtM::Delay(_) => {},
        StmtM::SystemTask { args, .. } => {
            lemma_args_fixed(args, m);
        },
    }
}

/// No statement of the block reads a key of the map.
pub open spec fn block_fixed(b: Seq<SpannedM>, m: Map<Seq<char>, ExprM>) -> bool {
    forall|i: int| 0 <= i < b.len() ==> fixed((#[trigger] b[i]).stmt, m)
}

proof fn lemma_block_fixed(b: Seq<SpannedM>, m: Map<Seq<char>, ExprM>)
    requires
        all_constant(m),
    ensures
        block_fixed(super::unroll::block_with(b, m), m),
    decreases b, 1int,
{
    let rs = super::unroll::block_with(b, m);
    assert forall|i: int| 0 <= i < rs.len() implies fixed((#[trigger] rs[i]).stmt, m) by {
        assert(decreases_to!(b => b[i]));
        law_no_loop_variable_remains(b[i].stmt, m);
    }
}

proof fn lemma_args_fixed(es: Seq<ExprM>, m: Map<Seq<char>, ExprM>)
    requires
        all_constant(m),
    ensures
        forall|i: int|
            0 <= i < super::subst::subst_all(es, m).len() ==> reads_none(
                #[trigger] super::subst::subst_all(es, m)[i],
                m,
            ),
    decreases es.len(),
{
    let rs = super::subst::subst_all(es, m);
    if es.len() > 0 {
        let x = super::subst::subst_all(es.drop_last(), m);
        lemma_args_fixed(es.drop_last(), m);
        lemma_expr_fixed(es.last(), m);
        assert forall|i: int| 0 <= i < rs.len() implies reads_none(#[trigger] rs[i], m) by {
            if i < x.len() {
                assert(rs[i] == x[i]);
            }
        }
    }
}

proof fn lemma_step_keys(list: Seq<(Seq<char>, ExprM)>, i: int, j: int)
    requires
        0 <= j < list.len(),
    ensures
        super::passes::resolve_from(list, i).len() == list.len(),
        super::passes::resolve_from(list, i)[j].0 == list[j].0,
    decreases list.len() - i,
{
    if 0 <= i < list.len() {
        lemma_step_keys(super::passes::resolve_step(list, i), i + 1, j);
    }
}

proof fn lemma_round_keys(list: Seq<(Seq<char>, ExprM)>, n: nat, j: int)
    requires
        0 <= j < list.len(),
    ensures
        super::passes::resolve_rounds(list, n).len() == list.len(),
        super::passes::resolve_rounds(list, n)[j].0 == list[j].0,
    decreases n,
{
    if n > 0 {
        lemma_step_keys(list, 0, j);
        lemma_round_keys(super::passes::resolve_from(list, 0), (n - 1) as nat, j);
    }
}

proof fn lemma_copy_entry(all: Seq<AssignM>, s: Seq<AssignM>, k: int) -> (j: int)
    requires
        0 <= k < s.len(),
        super::passes::copyable(all, s[k]),
    ensures
        0 <= j < super::passes::copy_entries(all, s).len(),
        super::passes::copy_entries(all, s)[j] == (s[k].lhs, s[k].rhs),
    decreases s.len(),
{
    let front = super::passes::copy_entries(all, s.drop_last());
    if k == s.len() - 1 {
        front.len() as int
    } else {
        assert(s.drop_last()[k] == s[k]);
        lemma_copy_entry(all, s.drop_last(), k)
    }
}

proof fn lemma_single_def(s: Seq<AssignM>, n: Seq<char>, k: int)
    ensures
        (forall|j: int| 0 <= j < s.len() ==> (#[trigger] s[j]).lhs != n)
            ==> super::passes::def_count(s, n) == 0,
        0 <= k < s.len() && s[k].lhs == n && (forall|j: int|
            0 <= j < s.len() && j != k ==> (#[trigger] s[j]).lhs != n) ==> super::passes::def_count(
            s,
            n,
        ) == 1,
    decreases s.len(),
{
    if s.len() > 0 {
        let front = s.drop_last();
        assert forall|j: int| 0 <= j < front.len() implies front[j] == s[j] by {}
        assert(s.last() == s[s.len() - 1]);
        lemma_single_def(front, n, k);
    }
}

/// A signal with a single assign, which does not mention the signal and is at most three
/// levels deep, is copied into the places that read it.
pub proof fn law_small_assign_is_copied(s: Seq<AssignM>, k: int)
    requires
        0 <= k < s.len(),
        forall|j: int| 0 <= j < s.len() && j != k ==> (#[trigger] s[j]).lhs != s[k].lhs,
        !mentions(s[k].rhs, s[k].lhs),
        super::subst::depth(s[k].rhs) <= 3,
    ensures
        exists|j: int|
            0 <= j < super::passes::copies(s).len() && (#[trigger] super::passes::copies(s)[j]).0
                == s[k].lhs,
{
    lemma_single_def(s, s[k].lhs, k);
    lemma_mentions(s[k].rhs, s[k].lhs);
    let list = super::passes::copy_entries(s, s);
    let j = lemma_copy_entry(s, s, k);
    lemma_round_keys(list, list.len(), j);
    assert(super::passes::copies(s)[j].0 == s[k].lhs);
}

/// The depth of an expression: one for a leaf, and one more than that of the deepest operand.
pub proof fn law_depth(op: IrBinOp, x: ExprM, y: ExprM, v: i64, name: Seq<char>)
    ensures
        super::subst::depth(ExprM::Const(v)) == 1,
        super::subst::depth(ExprM::Ident(name)) == 1,
        super::subst::depth(x) >= super::subst::depth(y) ==> super::subst::depth(
            super::rule_laws::two(op, x, y),
        ) == super::subst::depth(x) + 1,
        super::subst::depth(y) >= super::subst::depth(x) ==> super::subst::depth(
            super::rule_laws::two(op, x, y),
        ) == super::subst::depth(y) + 1,
{
}

/// What an inlined assign drives: a net of its own under the instance, the net that its port
/// is connected to, or the one bit of a wider net that a port of one bit is connected to.
pub proof fn law_inlined_targets(
    a: AssignM,
    m: Map<Seq<char>, ExprM>,
    prefix: Seq<char>,
    ports: Seq<crate::Port>,
    parent: IrModule,
    name: Seq<char>,
    k: i64,
)
    ensures
        ({
            let out = super::inline::lifted_assign(a, m, prefix, ports, parent);
            let value = super::inline::lifted(a.rhs, m, prefix);
            let bit = ExprM::PartSelect {
                value: Box::new(ExprM::Ident(name)),
                msb: Box::new(ExprM::Const(k)),
                lsb: Box::new(ExprM::Const(k)),
            };
            &&& out.span == a.span
            &&& !m.contains_key(a.lhs) ==> out.lhs == prefix + a.lhs && out.rhs == value
            &&& m.contains_key(a.lhs) && m[a.lhs] == ExprM::Ident(name) ==> out.lhs == name
                && out.rhs == value
            &&& m.contains_key(a.lhs) && m[a.lhs] == bit && super::inline::port_width(ports, a.lhs)
                == Some(1usize) && 0 <= k < super::inline::width_in(parent, name)
                && super::inline::width_in(parent, name) > 1 ==> out.lhs == name && out.rhs
                == super::inline::merged_bit(name, k, value)
            &&& m.contains_key(a.lhs) && !(m[a.lhs] is Ident) && !(m[a.lhs] is PartSelect)
                ==> out.lhs == prefix + a.lhs && out.rhs == value
        }),
{
    reveal_with_fuel(super::inline::const_index, 2);
}

/// A connection by place belongs to the port in that place, and one by name keeps its name;
/// what is connected does not change.
pub proof fn law_connections_by_place(
    mods: Seq<IrModule>,
    inst: IrInstance,
    out: IrInstance,
    c: int,
    i: int,
)
    requires
        super::ports::named_instance(mods, inst, out),
        0 <= c < mods.len(),
        mods[c].name@ == inst.module_name@,
        forall|j: int| c < j < mods.len() ==> (#[trigger] mods[j]).name@ != inst.module_name@,
        0 <= i < inst.connections@.len(),
    ensures
        out.connections@.len() == inst.connections@.len(),
        out.module_name == inst.module_name && out.instance_name == inst.instance_name,
        out.connections@[i].expr == inst.connections@[i].expr,
        inst.connections@[i].port_name is None ==> out.connections@[i].port_name is Some
            && out.connections@[i].port_name.unwrap()@ == mods[c].ports@[i].name@,
        inst.connections@[i].port_name is Some ==> out.connections@[i] == inst.connections@[i],
{
    lemma_last_module(mods, inst.module_name@, c);
    assert(super::ports::named_conn(
        mods[c].ports@,
        i,
        inst.connections@[i],
        out.connections@[i],
    ));
}

/// Adding up metrics loses none of them: nothing changes where one side is empty, and the
/// order of adding does not matter.
pub proof fn law_metrics_add_up(
    a: super::MetricsM,
    b: super::MetricsM,
    c: super::MetricsM,
)
    ensures
        super::add_metrics(super::zero_metrics(), a) == a,
        super::add_metrics(a, super::zero_metrics()) == a,
        super::add_metrics(super::add_metrics(a, b), c) == super::add_metrics(
            a,
            super::add_metrics(b, c),
        ),
{
    assert(Seq::<usize>::empty() + a.score_history =~= a.score_history);
    assert(a.score_history + Seq::<usize>::empty() =~= a.score_history);
    assert((a.score_history + b.score_history) + c.score_history =~= a.score_history + (
    b.score_history + c.score_history));
}

/// An expression has two states where all that it reads has: constants always, a signal if it
/// is known to, and an operator if both of its operands do.
pub proof fn law_two_states(
    op: IrBinOp,
    x: ExprM,
    y: ExprM,
    v: i64,
    n: Seq<char>,
    m: Map<Seq<char>, super::domain::ValueDomain>,
)
    ensures
        ({
            let two_state = |e: ExprM|
                super::domain::domain_of(e, m) == super::domain::ValueDomain::TwoState;
            &&& two_state(ExprM::Const(v))
            &&& two_state(ExprM::Ident(n)) <==> m.contains_key(n) && m[n]
                == super::domain::ValueDomain::TwoState
            &&& two_state(super::rule_laws::two(op, x, y)) <==> two_state(x) && two_state(y)
            &&& two_state(super::rule_laws::choice(x, y, y)) <==> two_state(x) && two_state(y)
        }),
{
    let e = super::rule_laws::two(op, x, y);
    let c = super::rule_laws::choice(x, y, y);
    let i = ExprM::Ident(n);
    assert(super::subst::reads(i).contains(n));
    lemma_reads_two_state(x, y, e, m);
    lemma_reads_two_state(x, y, c, m);
}

proof fn lemma_reads_two_state(
    x: ExprM,
    y: ExprM,
    e: ExprM,
    m: Map<Seq<char>, super::domain::ValueDomain>,
)
    requires
        forall|k: Seq<char>| #[trigger]
            super::subst::reads(e).contains(k) <==> super::subst::reads(x).contains(k)
                || super::subst::reads(y).contains(k),
    ensures
        super::domain::reads_two_state(e, m) <==> super::domain::reads_two_state(x, m)
            && super::domain::reads_two_state(y, m),
{
    if super::domain::reads_two_state(e, m) {
        assert forall|k: Seq<char>| #[trigger]
            super::subst::reads(x).contains(k) implies m.contains_key(k) && m[k]
            == super::domain::ValueDomain::TwoState by {
            assert(super::subst::reads(e).contains(k));
        }
        assert forall|k: Seq<char>| #[trigger]
            super::subst::reads(y).contains(k) implies m.contains_key(k) && m[k]
            == super::domain::ValueDomain::TwoState by {
            assert(super::subst::reads(e).contains(k));
        }
    }
}

/// The count of unrolled loops is zero exactly where there was none to unroll.
pub proof fn law_unroll_count(b: Seq<SpannedM>)
    ensures
        super::unroll::unroll_count(b) == 0 <==> settled(b),
    decreases super::unroll::block_depth(b), 1nat, b.len(),
{
    if b.len() > 0 {
        let front = b.drop_last();
        let last = b[b.len() - 1];
        law_unroll_count(front);
        lemma_stmt_count(last.stmt, last.span);
        if settled(b) {
            assert forall|i: int| 0 <= i < front.len() implies settled_stmt(
                (#[trigger] front[i]).stmt,
            ) by {
                assert(settled_stmt(b[i].stmt));
            }
            assert(settled_stmt(last.stmt));
        }
        if settled(front) && settled_stmt(last.stmt) {
            assert forall|i: int| 0 <= i < b.len() implies settled_stmt((#[trigger] b[i]).stmt) by {
                if i < front.len() {
                    assert(settled_stmt(front[i].stmt));
                }
            }
        }
    }
}

proof fn lemma_stmt_count(s: StmtM, span: crate::source_map::Span)
    ensures
        super::unroll::unroll_count_stmt(s, span) == 0 <==> settled_stmt(s),
    decreases super::unroll::stmt_depth(s), 0nat, 0nat,
{
    match s {
        StmtM::IfElse { cond, then_body, else_body } => {
            law_unroll_count(then_body);
            law_unroll_count(else_body);
            assert(settled_stmt(s) <==> settled(then_body) && settled(else_body));
        },
        StmtM::Case { expr, arms, default } => {
            lemma_arms_count(arms);
            law_unroll_count(default);
            if settled_stmt(s) {
                assert(settled(default));
                assert forall|i: int| 0 <= i < arms.len() implies settled((#[trigger] arms[i]).body) by {
                    assert forall|j: int| 0 <= j < arms[i].body.len() implies settled_stmt(
                        (#[trigger] arms[i].body[j]).stmt,
                    ) by {}
                }
            }
            if all_settled(arms) && settled(default) {
                assert forall|i: int, j: int| 0 <= i < arms.len() && 0 <= j < arms[i].body.len() implies settled_stmt(
                    (#[trigger] arms[i].body[j]).stmt,
                ) by {
                    assert(settled(arms[i].body));
                }
            }
        },
        StmtM::For { .. } => {
            if let Some(out) = super::unroll::for_expansion(s, span) {
                super::unroll::lemma_expansion_depth(s, span);
            }
        },
        _ => {},
    }
}

/// No arm has a loop that can be unrolled.
pub open spec fn all_settled(arms: Seq<crate::ir::CaseArmM>) -> bool {
    forall|i: int| 0 <= i < arms.len() ==> settled((#[trigger] arms[i]).body)
}

proof fn lemma_arms_count(arms: Seq<crate::ir::CaseArmM>)
    ensures
        super::unroll::unroll_count_arms(arms) == 0 <==> all_settled(arms),
    decreases super::unroll::arms_depth(arms), 2nat, arms.len(),
{
    if arms.len() > 0 {
        let front = arms.drop_last();
        let last = arms[arms.len() - 1];
        lemma_arms_count(front);
        law_unroll_count(last.body);
        if all_settled(arms) {
            assert forall|i: int| 0 <= i < front.len() implies settled((#[trigger] front[i]).body) by {
                assert(settled(arms[i].body));
            }
            assert(settled(last.body));
        }
        if all_settled(front) && settled(last.body) {
            assert forall|i: int| 0 <= i < arms.len() implies settled((#[trigger] arms[i]).body) by {
                if i < front.len() {
                    assert(settled(front[i].body));
                }
            }
        }
    }
}

/// Nets of an inlined module come along under the name of the instance, with their widths,
/// but for those that are connected.
pub proof fn law_inlined_nets(
    nets: Seq<crate::ir::IrNet>,
    x: crate::ir::IrNet,
    m: Map<Seq<char>, ExprM>,
    prefix: Seq<char>,
)
    ensures
        super::inline::lifted_nets(Seq::empty(), m, prefix).len() == 0,
        m.contains_key(x.name@) ==> super::inline::lifted_nets(nets.push(x), m, prefix)
            == super::inline::lifted_nets(nets, m, prefix),
        !m.contains_key(x.name@) ==> super::inline::lifted_nets(nets.push(x), m, prefix)
            == super::inline::lifted_nets(nets, m, prefix).push(
            crate::ir::NetM { name: prefix + x.name@, width: x.width },
        ),
{
    assert(nets.push(x).drop_last() =~= nets);
}

/// The width of a name is that of the first net of that name, then that of the first port, and
/// one bit where there is neither.
pub proof fn law_declared_width(m: IrModule, name: Seq<char>, k: int)
    ensures
        0 <= k < m.nets@.len() && m.nets@[k].name@ == name && (forall|j: int|
            0 <= j < k ==> (#[trigger] m.nets@[j]).name@ != name) ==> super::inline::width_in(
            m,
            name,
        ) == m.nets@[k].width,
        (forall|j: int| 0 <= j < m.nets@.len() ==> (#[trigger] m.nets@[j]).name@ != name) && 0 <= k
            < m.ports@.len() && m.ports@[k].name@ == name && (forall|j: int|
            0 <= j < k ==> (#[trigger] m.ports@[j]).name@ != name) ==> super::inline::width_in(
            m,
            name,
        ) == m.ports@[k].width,
        (forall|j: int| 0 <= j < m.nets@.len() ==> (#[trigger] m.nets@[j]).name@ != name) && (
        forall|j: int| 0 <= j < m.ports@.len() ==> (#[trigger] m.ports@[j]).name@ != name)
            ==> super::inline::width_in(m, name) == 1,
{
    lemma_net_width(m.nets@, name, k);
    lemma_port_width(m.ports@, name, k);
}

proof fn lemma_net_width(nets: Seq<crate::ir::IrNet>, name: Seq<char>, k: int)
    ensures
        0 <= k < nets.len() && nets[k].name@ == name && (forall|j: int|
            0 <= j < k ==> (#[trigger] nets[j]).name@ != name) ==> super::inline::net_width(
            nets,
            name,
        ) == Some(nets[k].width),
        (forall|j: int| 0 <= j < nets.len() ==> (#[trigger] nets[j]).name@ != name)
            ==> super::inline::net_width(nets, name) is None,
    decreases nets.len(),
{
    if nets.len() > 0 {
        let front = nets.drop_last();
        assert forall|j: int| 0 <= j < front.len() implies front[j] == nets[j] by {}
        assert(nets.last() == nets[nets.len() - 1]);
        lemma_net_width(front, name, k);
    }
}

proof fn lemma_port_width(ports: Seq<crate::Port>, name: Seq<char>, k: int)
    ensures
        0 <= k < ports.len() && ports[k].name@ == name && (forall|j: int|
            0 <= j < k ==> (#[trigger] ports[j]).name@ != name) ==> super::inline::port_width(
            ports,
            name,
        ) == Some(ports[k].width),
        (forall|j: int| 0 <= j < ports.len() ==> (#[trigger] ports[j]).name@ != name)
            ==> super::inline::port_width(ports, name) is None,
    decreases ports.len(),
{
    if ports.len() > 0 {
        let front = ports.drop_last();
        assert forall|j: int| 0 <= j < front.len() implies front[j] == ports[j] by {}
        assert(ports.last() == ports[ports.len() - 1]);
        lemma_port_width(front, name, k);
    }
}

/// An output connected to all bits of a net drives that net; connected to fewer or more bits
/// than the net or the port has, it drives a net of its own.
pub proof fn law_inlined_select(
    a: AssignM,
    m: Map<Seq<char>, ExprM>,
    prefix: Seq<char>,
    ports: Seq<crate::Port>,
    parent: IrModule,
    name: Seq<char>,
    hi: i64,
    lo: i64,
)
    requires
        m.contains_key(a.lhs),
        m[a.lhs] == (ExprM::PartSelect {
            value: Box::new(ExprM::Ident(name)),
            msb: Box::new(ExprM::Const(hi)),
            lsb: Box::new(ExprM::Const(lo)),
        }),
        hi != lo,
    ensures
        ({
            let out = super::inline::lifted_assign(a, m, prefix, ports, parent);
            let bits = if hi > lo {
                hi - lo + 1
            } else {
                lo - hi + 1
            };
            let fits = super::inline::width_in(parent, name) == bits && (super::inline::port_width(
                ports,
                a.lhs,
            ) matches Some(w) && w == bits);
            &&& fits ==> out.lhs == name
            &&& !fits ==> out.lhs == prefix + a.lhs
            &&& out.rhs == super::inline::lifted(a.rhs, m, prefix)
        }),
{
    reveal_with_fuel(super::inline::const_index, 2);
}

/// What a port of an instance is connected to: the expression of the last connection of its
/// name.
pub proof fn law_connected_expression(inst: IrInstance, name: Seq<char>, k: int)
    requires
        0 <= k < inst.connections@.len(),
        inst.connections@[k].port_name matches Some(n) && n@ == name,
        forall|j: int|
            k < j < inst.connections@.len() ==> !(port_is(#[trigger] inst.connections@[j], name)),
    ensures
        super::inline::conn_map(inst).contains_key(name),
        super::inline::conn_map(inst)[name] == inst.connections@[k].expr@,
{
    lemma_connected(inst.connections@, name, k);
}

/// The connection names the port.
pub open spec fn port_is(c: crate::ir::IrPortConn, name: Seq<char>) -> bool {
    c.port_name matches Some(n) && n@ == name
}

proof fn lemma_connected(conns: Seq<crate::ir::IrPortConn>, name: Seq<char>, k: int)
    requires
        0 <= k < conns.len(),
        port_is(conns[k], name),
        forall|j: int| k < j < conns.len() ==> !(port_is(#[trigger] conns[j], name)),
    ensures
        ({
            let m = super::subst::map_of(super::inline::conn_entries(conns));
            m.contains_key(name) && m[name] == conns[k].expr@
        }),
    decreases conns.len(),
{
    let front = conns.drop_last();
    let entries = super::inline::conn_entries(conns);
    let last = conns[conns.len() - 1];
    if last.port_name is Some {
        assert(entries.drop_last() =~= super::inline::conn_entries(front));
    }
    if k < conns.len() - 1 {
        assert(!port_is(last, name));
        assert forall|j: int| 0 <= j < front.len() implies front[j] == conns[j] by {}
        lemma_connected(front, name, k);
    }
}

} // verus!
