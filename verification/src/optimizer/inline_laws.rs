//! What an inlined instance means: the assigns that it adds hold exactly where those of the
//! child hold on the connected signals.
use super::eval::Env;
use crate::ir::{ExprM, IrInstance, IrModule};
use vstd::prelude::*;

verus! {

/// The signals of a child as its parent sees them: a connected port has the value of the
/// connected expression, any other name that of the prefixed one.
pub open spec fn child_env(env: Env, m: Map<Seq<char>, ExprM>, prefix: Seq<char>) -> Env {
    Env {
        ident: |n: Seq<char>|
            if m.contains_key(n) {
                super::eval::eval(m[n], env)
            } else {
                (env.ident)(prefix + n)
            },
        mem: |stem: Seq<char>, i: i64| (env.mem)(prefix + stem, i),
        ..env
    }
}

/// A lifted expression has in the parent the value that the expression has in the child.
pub proof fn law_lifted_expression_value(
    e: ExprM,
    m: Map<Seq<char>, ExprM>,
    prefix: Seq<char>,
    env: Env,
)
    ensures
        super::eval::eval(super::inline::lifted(e, m, prefix), env) == super::eval::eval(
            e,
            child_env(env, m, prefix),
        ),
    decreases e,
{
    match e {
        ExprM::Const(_) | ExprM::Ident(_) => {},
        ExprM::Binary { op, left, right } => {
            law_lifted_expression_value(*left, m, prefix, env);
            law_lifted_expression_value(*right, m, prefix, env);
        },
        ExprM::Unary { op, operand } => {
            law_lifted_expression_value(*operand, m, prefix, env);
        },
        ExprM::Signed(x) => {
            law_lifted_expression_value(*x, m, prefix, env);
        },
        ExprM::Ternary { cond, then_expr, else_expr } => {
            law_lifted_expression_value(*cond, m, prefix, env);
            law_lifted_expression_value(*then_expr, m, prefix, env);
            law_lifted_expression_value(*else_expr, m, prefix, env);
        },
        ExprM::Concat(es) => {
            lemma_lifted_values(es, m, prefix, env);
        },
        ExprM::PartSelect { value, msb, lsb } => {
            law_lifted_expression_value(*value, m, prefix, env);
            law_lifted_expression_value(*msb, m, prefix, env);
            law_lifted_expression_value(*lsb, m, prefix, env);
        },
        ExprM::MemRead { stem, index } => {
            law_lifted_expression_value(*index, m, prefix, env);
        },
    }
}

proof fn lemma_lifted_values(
    es: Seq<ExprM>,
    m: Map<Seq<char>, ExprM>,
    prefix: Seq<char>,
    env: Env,
)
    ensures
        super::eval::eval_all(super::inline::lifted_all(es, m, prefix), env)
            == super::eval::eval_all(es, child_env(env, m, prefix)),
    decreases es,
{
    if es.len() > 0 {
        lemma_lifted_values(es.drop_last(), m, prefix, env);
        law_lifted_expression_value(es.last(), m, prefix, env);
        let out = super::inline::lifted_all(es, m, prefix);
        assert(out.drop_last() =~= super::inline::lifted_all(es.drop_last(), m, prefix));
    }
}

/// Every port that the child assigns is left open or connected to a whole net by its name.
pub open spec fn drives_whole_nets(child: IrModule, inst: IrInstance) -> bool {
    let m = super::inline::conn_map(inst);
    forall|i: int|
        0 <= i < child.assigns@.len() && m.contains_key((#[trigger] child.assigns@[i]).lhs@)
            ==> m[child.assigns@[i].lhs@] is Ident
}

/// The assigns of an inlined instance hold exactly where those of the child hold on the
/// connected signals. This is for ports that drive whole nets; for a port on one bit of a
/// net, see [`super::inline::law_merged_bit_value`].
pub proof fn law_inlined_instance_means_the_child(
    child: IrModule,
    inst: IrInstance,
    parent: IrModule,
    env: Env,
)
    requires
        drives_whole_nets(child, inst),
    ensures
        super::laws::satisfies(super::inline::instance_additions(child, inst, parent).assigns, env)
            == super::laws::satisfies(
            crate::ir::assigns_view(child.assigns@),
            child_env(env, super::inline::conn_map(inst), super::inline::instance_prefix(inst)),
        ),
{
    let m = super::inline::conn_map(inst);
    let prefix = super::inline::instance_prefix(inst);
    let inner = child_env(env, m, prefix);
    let added = super::inline::instance_additions(child, inst, parent).assigns;
    let own = crate::ir::assigns_view(child.assigns@);
    assert forall|i: int| 0 <= i < own.len() implies ((env.ident)((#[trigger] added[i]).lhs)
        == super::eval::eval(added[i].rhs, env)) == ((inner.ident)(own[i].lhs)
        == super::eval::eval(own[i].rhs, inner)) by {
        let a = child.assigns@[i]@;
        assert(own[i] == a);
        assert(a.lhs == child.assigns@[i].lhs@);
        law_lifted_expression_value(a.rhs, m, prefix, env);
    }
    if super::laws::satisfies(added, env) {
        assert forall|i: int| 0 <= i < own.len() implies (inner.ident)((#[trigger] own[i]).lhs)
            == super::eval::eval(own[i].rhs, inner) by {
            assert((env.ident)(added[i].lhs) == super::eval::eval(added[i].rhs, env));
        }
    }
    if super::laws::satisfies(own, inner) {
        assert forall|i: int| 0 <= i < added.len() implies (env.ident)((#[trigger] added[i]).lhs)
            == super::eval::eval(added[i].rhs, env) by {
            assert((inner.ident)(own[i].lhs) == super::eval::eval(own[i].rhs, inner));
        }
    }
}

} // verus!
