//! Bottom-up application of the single-node rules to a whole expression.
use super::rules::{try_peephole, try_rewrite, try_sink};
use crate::ir::{ExprM, IrAssign, IrExpr};
use vstd::prelude::*;

verus! {

/// A count held in a `usize`: exact as long as it fits, and never zero for a positive
/// count.
pub open spec fn sat(n: nat) -> usize {
    if n <= usize::MAX {
        n as usize
    } else {
        usize::MAX
    }
}

/// Which family of single-node rules a traversal applies.
#[derive(Debug, Clone, Copy, PartialEq, Eq, Structural)]
pub enum Rule {
    Algebraic,
    Peephole,
    Sink,
}

/// The replacement that a rule family offers for a node.
pub open spec fn rule_m(rule: Rule, e: ExprM) -> Option<ExprM> {
    match rule {
        Rule::Algebraic => super::rules::rewrite_m(e),
        Rule::Peephole => super::rules::peephole_m(e),
        Rule::Sink => super::rules::sink_m(e),
    }
}

/// The expression with a rule family applied once at every node, children first.
pub open spec fn rewritten(rule: Rule, e: ExprM) -> ExprM
    decreases e, 1nat,
{
    let k = rewritten_kids(rule, e);
    match rule_m(rule, k) {
        Some(r) => r,
        None => k,
    }
}

/// The node with its children rewritten.
pub open spec fn rewritten_kids(rule: Rule, e: ExprM) -> ExprM
    decreases e, 0nat,
{
    match e {
        ExprM::Const(_) | ExprM::Ident(_) => e,
        ExprM::Binary { op, left, right } => crate::ir::bin_m(
            op,
            rewritten(rule, *left),
            rewritten(rule, *right),
        ),
        ExprM::Unary { op, operand } => crate::ir::un_m(op, rewritten(rule, *operand)),
        ExprM::Signed(x) => ExprM::Signed(Box::new(rewritten(rule, *x))),
        ExprM::Ternary { cond, then_expr, else_expr } => crate::ir::ternary_m(
            rewritten(rule, *cond),
            rewritten(rule, *then_expr),
            rewritten(rule, *else_expr),
        ),
        ExprM::Concat(es) => ExprM::Concat(rewritten_all(rule, es)),
        ExprM::PartSelect { value, msb, lsb } => ExprM::PartSelect {
            value: Box::new(rewritten(rule, *value)),
            msb: Box::new(rewritten(rule, *msb)),
            lsb: Box::new(rewritten(rule, *lsb)),
        },
        ExprM::MemRead { stem, index } => ExprM::MemRead {
            stem,
            index: Box::new(rewritten(rule, *index)),
        },
    }
}

pub open spec fn rewritten_all(rule: Rule, es: Seq<ExprM>) -> Seq<ExprM>
    decreases es, 0nat,
{
    if es.len() == 0 {
        Seq::empty()
    } else {
        rewritten_all(rule, es.drop_last()).push(rewritten(rule, es.last()))
    }
}

/// How many nodes the traversal replaces.
pub open spec fn rewrite_count(rule: Rule, e: ExprM) -> nat
    decreases e, 1nat,
{
    rewrite_count_kids(rule, e) + if rule_m(rule, rewritten_kids(rule, e)) is Some {
        1nat
    } else {
        0nat
    }
}

pub open spec fn rewrite_count_kids(rule: Rule, e: ExprM) -> nat
    decreases e, 0nat,
{
    match e {
        ExprM::Const(_) | ExprM::Ident(_) => 0,
        ExprM::Binary { op, left, right } => rewrite_count(rule, *left) + rewrite_count(
            rule,
            *right,
        ),
        ExprM::Unary { op, operand } => rewrite_count(rule, *operand),
        ExprM::Signed(x) => rewrite_count(rule, *x),
        ExprM::Ternary { cond, then_expr, else_expr } => rewrite_count(rule, *cond) + rewrite_count(
            rule,
            *then_expr,
        ) + rewrite_count(rule, *else_expr),
        ExprM::Concat(es) => rewrite_count_all(rule, es),
        ExprM::PartSelect { value, msb, lsb } => rewrite_count(rule, *value) + rewrite_count(
            rule,
            *msb,
        ) + rewrite_count(rule, *lsb),
        ExprM::MemRead { stem, index } => rewrite_count(rule, *index),
    }
}

pub open spec fn rewrite_count_all(rule: Rule, es: Seq<ExprM>) -> nat
    decreases es, 0nat,
{
    if es.len() == 0 {
        0
    } else {
        rewrite_count_all(rule, es.drop_last()) + rewrite_count(rule, es.last())
    }
}

fn try_rule(rule: Rule, expr: &IrExpr) -> (r: Option<IrExpr>)
    ensures
        super::rules::opt_view(r) == rule_m(rule, expr@),
{
    match rule {
        Rule::Algebraic => try_rewrite(expr),
        Rule::Peephole => try_peephole(expr),
        Rule::Sink => try_sink(expr),
    }
}

/// Applies a rule family at every node, children first, and counts the replacements.
fn apply_rule(rule: Rule, expr: &mut IrExpr) -> (count: usize)
    ensures
        final(expr)@ == rewritten(rule, old(expr)@),
        count == sat(rewrite_count(rule, old(expr)@)),
    decreases *old(expr), 1nat,
{
    let kids = apply_rule_kids(rule, expr);
    if let Some(replacement) = try_rule(rule, expr) {
        *expr = replacement;
        kids.saturating_add(1)
    } else {
        kids
    }
}

fn apply_rule_kids(rule: Rule, expr: &mut IrExpr) -> (count: usize)
    ensures
        final(expr)@ == rewritten_kids(rule, old(expr)@),
        count == sat(rewrite_count_kids(rule, old(expr)@)),
    decreases *old(expr), 0nat,
{
    match expr {
        IrExpr::Const(_) | IrExpr::Ident(_) => 0,
        IrExpr::Binary { left, right, .. } => {
            let a = apply_rule(rule, left);
            let b = apply_rule(rule, right);
            a.saturating_add(b)
        },
        IrExpr::Unary { operand, .. } => apply_rule(rule, operand),
        IrExpr::Signed(operand) => apply_rule(rule, operand),
        IrExpr::Ternary { cond, then_expr, else_expr } => {
            let a = apply_rule(rule, cond);
            let b = apply_rule(rule, then_expr);
            let c = apply_rule(rule, else_expr);
            a.saturating_add(b).saturating_add(c)
        },
        IrExpr::Concat(exprs) => apply_rule_all(rule, exprs),
        IrExpr::PartSelect { value, msb, lsb } => {
            let a = apply_rule(rule, value);
            let b = apply_rule(rule, msb);
            let c = apply_rule(rule, lsb);
            a.saturating_add(b).saturating_add(c)
        },
        IrExpr::MemRead { index, .. } => apply_rule(rule, index),
    }
}

fn apply_rule_all(rule: Rule, es: &mut Vec<IrExpr>) -> (count: usize)
    ensures
        crate::ir::exprs_view(final(es)@) == rewritten_all(rule, crate::ir::exprs_view(old(es)@)),
        count == sat(rewrite_count_all(rule, crate::ir::exprs_view(old(es)@))),
    decreases *old(es), 0nat,
{
    let mut i: usize = 0;
    let mut count: usize = 0;
    let n: usize = es.len();
    let ghost before = es@;
    let ghost model = crate::ir::exprs_view(before);
    assert(crate::ir::exprs_view(es@).take(0) =~= rewritten_all(rule, model.take(0)));
    while i < n
        invariant
            i <= n,
            n == es@.len(),
            n == before.len(),
            before == old(es)@,
            model == crate::ir::exprs_view(before),
            crate::ir::exprs_view(es@).take(i as int) == rewritten_all(rule, model.take(i as int)),
            count == sat(rewrite_count_all(rule, model.take(i as int))),
            forall|j: int| i <= j < n ==> es@[j] == before[j],
        decreases n - i,
    {
        let ghost cur = crate::ir::exprs_view(es@);
        assert(decreases_to!(before => before[i as int]));
        let c = apply_rule(rule, &mut es[i]);
        count = count.saturating_add(c);
        proof {
            assert(model.take(i + 1).drop_last() == model.take(i as int));
            assert(model.take(i + 1).last() == before[i as int]@);
            assert(crate::ir::exprs_view(es@).take(i + 1) =~= cur.take(i as int).push(
                es@[i as int]@,
            ));
        }
        i = i + 1;
    }
    assert(crate::ir::exprs_view(es@).take(i as int) == crate::ir::exprs_view(es@));
    assert(model.take(i as int) == model);
    count
}

/// Algebraic simplification of a whole expression.
pub fn fold_expr(expr: &mut IrExpr) -> (count: usize)
    ensures
        final(expr)@ == rewritten(Rule::Algebraic, old(expr)@),
        count == sat(rewrite_count(Rule::Algebraic, old(expr)@)),
{
    apply_rule(Rule::Algebraic, expr)
}

/// Peephole combining of a whole expression.
pub fn peephole(expr: &mut IrExpr) -> (count: usize)
    ensures
        final(expr)@ == rewritten(Rule::Peephole, old(expr)@),
        count == sat(rewrite_count(Rule::Peephole, old(expr)@)),
{
    apply_rule(Rule::Peephole, expr)
}

/// Code sinking over a whole expression.
pub fn sink_expr(expr: &mut IrExpr) -> (count: usize)
    ensures
        final(expr)@ == rewritten(Rule::Sink, old(expr)@),
        count == sat(rewrite_count(Rule::Sink, old(expr)@)),
{
    apply_rule(Rule::Sink, expr)
}

/// The assigns with every right-hand side rewritten.
pub open spec fn rewritten_assigns(rule: Rule, s: Seq<crate::ir::AssignM>) -> Seq<
    crate::ir::AssignM,
> {
    Seq::new(
        s.len(),
        |i: int| crate::ir::AssignM { rhs: rewritten(rule, s[i].rhs), ..s[i] },
    )
}

/// Total of the replacements over all right-hand sides.
pub open spec fn rewrite_count_assigns(rule: Rule, s: Seq<crate::ir::AssignM>) -> nat
    decreases s.len(),
{
    if s.len() == 0 {
        0
    } else {
        rewrite_count_assigns(rule, s.drop_last()) + rewrite_count(rule, s.last().rhs)
    }
}

/// Applies a rule family to every right-hand side.
pub fn apply_rule_assigns(rule: Rule, assigns: &mut Vec<IrAssign>) -> (count: usize)
    ensures
        crate::ir::assigns_view(final(assigns)@) == rewritten_assigns(
            rule,
            crate::ir::assigns_view(old(assigns)@),
        ),
        count == sat(rewrite_count_assigns(rule, crate::ir::assigns_view(old(assigns)@))),
{
    let mut i: usize = 0;
    let mut count: usize = 0;
    let n: usize = assigns.len();
    let ghost model = crate::ir::assigns_view(assigns@);
    while i < n
        invariant
            i <= n,
            n == assigns@.len(),
            n == model.len(),
            count == sat(rewrite_count_assigns(rule, model.take(i as int))),
            forall|j: int| i <= j < n ==> (#[trigger] assigns@[j])@ == model[j],
            forall|j: int|
                0 <= j < i ==> (#[trigger] assigns@[j])@ == rewritten_assigns(rule, model)[j],
        decreases n - i,
    {
        assert(assigns@[i as int]@ == model[i as int]);
        let c = apply_rule(rule, &mut assigns[i].rhs);
        count = count.saturating_add(c);
        proof {
            assert(model.take(i + 1).drop_last() == model.take(i as int));
            assert(model.take(i + 1).last() == model[i as int]);
        }
        i = i + 1;
    }
    assert(crate::ir::assigns_view(assigns@) =~= rewritten_assigns(rule, model));
    assert(model.take(i as int) == model);
    count
}

/// Every replacement that the traversal makes is exact in `env`; only the algebraic
/// rules have inexact ones.
pub open spec fn exact_rewriting(rule: Rule, e: ExprM, env: super::eval::Env) -> bool
    decreases e,
{
    &&& rule == Rule::Algebraic ==> super::value_laws::exact_at(rewritten_kids(rule, e), env)
    &&& match e {
        ExprM::Const(_) | ExprM::Ident(_) => true,
        ExprM::Binary { op, left, right } => exact_rewriting(rule, *left, env) && exact_rewriting(
            rule,
            *right,
            env,
        ),
        ExprM::Unary { op, operand } => exact_rewriting(rule, *operand, env),
        ExprM::Signed(x) => exact_rewriting(rule, *x, env),
        ExprM::Ternary { cond, then_expr, else_expr } => exact_rewriting(rule, *cond, env)
            && exact_rewriting(rule, *then_expr, env) && exact_rewriting(rule, *else_expr, env),
        ExprM::Concat(es) => forall|i: int|
            0 <= i < es.len() ==> exact_rewriting(rule, #[trigger] es[i], env),
        ExprM::PartSelect { value, msb, lsb } => exact_rewriting(rule, *value, env)
            && exact_rewriting(rule, *msb, env) && exact_rewriting(rule, *lsb, env),
        ExprM::MemRead { stem, index } => exact_rewriting(rule, *index, env),
    }
}

/// A whole rewriting traversal keeps the value of the expression.
pub proof fn law_traversal_keeps_value(rule: Rule, e: ExprM, env: super::eval::Env)
    requires
        exact_rewriting(rule, e, env),
    ensures
        super::eval::eval(rewritten(rule, e), env) == super::eval::eval(e, env),
    decreases e,
{
    let k = rewritten_kids(rule, e);
    match e {
        ExprM::Const(_) | ExprM::Ident(_) => {},
        ExprM::Binary { op, left, right } => {
            law_traversal_keeps_value(rule, *left, env);
            law_traversal_keeps_value(rule, *right, env);
        },
        ExprM::Unary { op, operand } => {
            law_traversal_keeps_value(rule, *operand, env);
        },
        ExprM::Signed(x) => {
            law_traversal_keeps_value(rule, *x, env);
        },
        ExprM::Ternary { cond, then_expr, else_expr } => {
            law_traversal_keeps_value(rule, *cond, env);
            law_traversal_keeps_value(rule, *then_expr, env);
            law_traversal_keeps_value(rule, *else_expr, env);
        },
        ExprM::Concat(es) => {
            lemma_traversal_all(rule, es, env);
        },
        ExprM::PartSelect { value, msb, lsb } => {
            law_traversal_keeps_value(rule, *value, env);
            law_traversal_keeps_value(rule, *msb, env);
            law_traversal_keeps_value(rule, *lsb, env);
        },
        ExprM::MemRead { stem, index } => {
            law_traversal_keeps_value(rule, *index, env);
        },
    }
    assert(super::eval::eval(k, env) == super::eval::eval(e, env));
    if rule_m(rule, k) is Some {
        match rule {
            Rule::Algebraic => super::value_laws::law_rewrite_keeps_value(k, env),
            Rule::Peephole => super::value_laws::law_peephole_keeps_value(k, env),
            Rule::Sink => super::value_laws::law_sink_keeps_value(k, env),
        }
    }
}

proof fn lemma_traversal_all(rule: Rule, es: Seq<ExprM>, env: super::eval::Env)
    requires
        forall|i: int| 0 <= i < es.len() ==> exact_rewriting(rule, #[trigger] es[i], env),
    ensures
        super::eval::eval_all(rewritten_all(rule, es), env) == super::eval::eval_all(es, env),
    decreases es,
{
    if es.len() > 0 {
        let rest = es.drop_last();
        assert forall|i: int| 0 <= i < rest.len() implies exact_rewriting(
            rule,
            #[trigger] rest[i],
            env,
        ) by {
            assert(rest[i] == es[i]);
        }
        lemma_traversal_all(rule, rest, env);
        law_traversal_keeps_value(rule, es.last(), env);
        let out = rewritten_all(rule, es);
        assert(out.drop_last() == rewritten_all(rule, rest));
        assert(out.last() == rewritten(rule, es.last()));
    }
}

} // verus!
