//! What substitution keeps.
use super::cst::{SynBlock, SynConn, SynExpr, SynItem, SynStmt, SynTarget};
use super::subst::Subs;
use crate::expr_const::Known;
use vstd::prelude::*;

verus! {

/// The identifier `name` occurs in `e`.
pub open spec fn mentions(e: SynExpr, name: Seq<char>) -> bool
    decreases e,
{
    match e {
        SynExpr::Ident(n) => n == name,
        SynExpr::Number(_) => false,
        SynExpr::Binary { op, left, right } => mentions(*left, name) || mentions(*right, name),
        SynExpr::Unary { op, operand } => mentions(*operand, name),
        SynExpr::Ternary { cond, then_expr, else_expr } => mentions(*cond, name) || mentions(
            *then_expr,
            name,
        ) || mentions(*else_expr, name),
        SynExpr::Concat(es) => any_mentions(es, name),
        SynExpr::Index { base, msb, lsb } => mentions(*base, name) || mentions(*msb, name) || (
        match lsb {
            Some(x) => mentions(*x, name),
            None => false,
        }),
        SynExpr::Clog2(x) => mentions(*x, name),
        SynExpr::Signed(x) => mentions(*x, name),
    }
}

pub open spec fn any_mentions(es: Seq<SynExpr>, name: Seq<char>) -> bool
    decreases es,
{
    if es.len() == 0 {
        false
    } else {
        any_mentions(es.drop_last(), name) || mentions(es.last(), name)
    }
}

/// `e` mentions no formal.
pub open spec fn no_formal_in(e: SynExpr, subs: Subs) -> bool {
    forall|name: Seq<char>| #[trigger]
        mentions(e, name) ==> super::subst::actual_of(subs, name) is None
}

proof fn lemma_element_mentions(es: Seq<SynExpr>, i: int, name: Seq<char>)
    requires
        0 <= i < es.len(),
        mentions(es[i], name),
    ensures
        any_mentions(es, name),
    decreases es.len(),
{
    if i < es.len() - 1 {
        lemma_element_mentions(es.drop_last(), i, name);
    }
}

/// Substituting leaves an expression that mentions no formal as it is.
pub proof fn law_substitution_needs_a_formal(e: SynExpr, subs: Subs)
    requires
        no_formal_in(e, subs),
    ensures
        super::subst::subst_expr(e, subs) == e,
    decreases e,
{
    match e {
        SynExpr::Ident(n) => {
            assert(mentions(e, n));
        },
        SynExpr::Number(_) => {},
        SynExpr::Binary { op, left, right } => {
            assert forall|name: Seq<char>| mentions(*left, name) || mentions(*right, name) implies (
            #[trigger] super::subst::actual_of(subs, name)) is None by {
                assert(mentions(e, name));
            }
            law_substitution_needs_a_formal(*left, subs);
            law_substitution_needs_a_formal(*right, subs);
        },
        SynExpr::Unary { op, operand } => {
            assert forall|name: Seq<char>| mentions(*operand, name) implies (
            #[trigger] super::subst::actual_of(subs, name)) is None by {
                assert(mentions(e, name));
            }
            law_substitution_needs_a_formal(*operand, subs);
        },
        SynExpr::Ternary { cond, then_expr, else_expr } => {
            assert forall|name: Seq<char>|
                mentions(*cond, name) || mentions(*then_expr, name) || mentions(
                    *else_expr,
                    name,
                ) implies (#[trigger] super::subst::actual_of(subs, name)) is None by {
                assert(mentions(e, name));
            }
            law_substitution_needs_a_formal(*cond, subs);
            law_substitution_needs_a_formal(*then_expr, subs);
            law_substitution_needs_a_formal(*else_expr, subs);
        },
        SynExpr::Concat(es) => {
            assert forall|i: int| 0 <= i < es.len() implies super::subst::subst_expr(
                #[trigger] es[i],
                subs,
            ) == es[i] by {
                assert forall|name: Seq<char>| mentions(es[i], name) implies (
                #[trigger] super::subst::actual_of(subs, name)) is None by {
                    lemma_element_mentions(es, i, name);
                    assert(mentions(e, name));
                }
                assert(decreases_to!(es => es[i]));
                law_substitution_needs_a_formal(es[i], subs);
            }
            assert(super::subst::subst_exprs(es, subs) =~= es);
        },
        SynExpr::Index { base, msb, lsb } => {
            assert forall|name: Seq<char>|
                mentions(*base, name) || mentions(*msb, name) || (lsb is Some && mentions(
                    *lsb.unwrap(),
                    name,
                )) implies (#[trigger] super::subst::actual_of(subs, name)) is None by {
                assert(mentions(e, name));
            }
            law_substitution_needs_a_formal(*base, subs);
            law_substitution_needs_a_formal(*msb, subs);
            if let Some(x) = lsb {
                law_substitution_needs_a_formal(*x, subs);
            }
        },
        SynExpr::Clog2(x) => {
            assert forall|name: Seq<char>| mentions(*x, name) implies (
            #[trigger] super::subst::actual_of(subs, name)) is None by {
                assert(mentions(e, name));
            }
            law_substitution_needs_a_formal(*x, subs);
        },
        SynExpr::Signed(x) => {
            assert forall|name: Seq<char>| mentions(*x, name) implies (
            #[trigger] super::subst::actual_of(subs, name)) is None by {
                assert(mentions(e, name));
            }
            law_substitution_needs_a_formal(*x, subs);
        },
    }
}

proof fn lemma_index_actual(var: Seq<char>, k: i64, name: Seq<char>)
    ensures
        super::subst::actual_of(super::subst::index_for(var, k), name) == if name == var {
            Some(SynExpr::Number(crate::number::decimal(k as int)))
        } else {
            None
        },
{
    let subs = super::subst::index_for(var, k);
    assert(subs.drop_last() =~= Seq::empty());
    reveal_with_fuel(super::subst::actual_of, 2);
}

/// Writing an index in place of a generate variable gives an expression the value that it
/// has with the variable bound to the index.
pub proof fn law_index_is_binding(e: SynExpr, var: Seq<char>, k: i64, known: Known)
    ensures
        crate::expr_const::param_value(
            super::subst::subst_expr(e, super::subst::index_for(var, k)),
            known,
        ) == crate::expr_const::param_value(e, known.insert(var, k)),
    decreases e,
{
    match e {
        SynExpr::Ident(n) => {
            lemma_index_actual(var, k, n);
            crate::expr_const::law_decimal_literal_value(k);
        },
        SynExpr::Binary { op, left, right } => {
            law_index_is_binding(*left, var, k, known);
            law_index_is_binding(*right, var, k, known);
        },
        SynExpr::Unary { op, operand } => {
            law_index_is_binding(*operand, var, k, known);
        },
        SynExpr::Ternary { cond, then_expr, else_expr } => {
            law_index_is_binding(*cond, var, k, known);
            law_index_is_binding(*then_expr, var, k, known);
            law_index_is_binding(*else_expr, var, k, known);
        },
        SynExpr::Clog2(x) => {
            law_index_is_binding(*x, var, k, known);
        },
        SynExpr::Signed(x) => {
            law_index_is_binding(*x, var, k, known);
        },
        _ => {},
    }
}

/// An inner generate loop over the same name shadows the outer one: substituting for the
/// outer variable changes the inner bound and nothing else.
pub proof fn law_inner_loop_shadows(
    var: Seq<char>,
    k: i64,
    upper_expr: SynExpr,
    body: Seq<SynItem>,
)
    ensures
        super::subst::subst_item(
            SynItem::GenerateForBody { loop_var: var, upper_expr, body },
            var,
            k,
        ) == (SynItem::GenerateForBody {
            loop_var: var,
            upper_expr: super::subst::subst_expr(upper_expr, super::subst::index_for(var, k)),
            body,
        }),
{
}

/// The first binding of a name counts.
pub proof fn law_first_binding(subs: Subs, name: Seq<char>, k: int)
    ensures
        0 <= k < subs.len() && subs[k].0 == name && (forall|j: int|
            0 <= j < k ==> (#[trigger] subs[j]).0 != name) ==> super::subst::actual_of(subs, name)
            == Some(subs[k].1),
        (forall|j: int| 0 <= j < subs.len() ==> (#[trigger] subs[j]).0 != name)
            ==> super::subst::actual_of(subs, name) is None,
    decreases subs.len(),
{
    if subs.len() > 0 {
        let front = subs.drop_last();
        assert forall|j: int| 0 <= j < front.len() implies front[j] == subs[j] by {}
        law_first_binding(front, name, k);
        assert(subs.last() == subs[subs.len() - 1]);
        if k == subs.len() - 1 {
            law_first_binding(front, name, 0);
        }
    }
}

/// No actual mentions a formal.
pub open spec fn closed(subs: Subs) -> bool {
    forall|k: int| 0 <= k < subs.len() ==> no_formal_in((#[trigger] subs[k]).1, subs)
}

proof fn lemma_actual_listed(subs: Subs, name: Seq<char>)
    requires
        super::subst::actual_of(subs, name) is Some,
    ensures
        exists|k: int|
            0 <= k < subs.len() && (#[trigger] subs[k]).1 == super::subst::actual_of(
                subs,
                name,
            ).unwrap(),
    decreases subs.len(),
{
    let front = subs.drop_last();
    if super::subst::actual_of(front, name) is Some {
        lemma_actual_listed(front, name);
        let k = choose|k: int|
            0 <= k < front.len() && (#[trigger] front[k]).1 == super::subst::actual_of(
                front,
                name,
            ).unwrap();
        assert(subs[k] == front[k]);
    } else {
        assert(subs[subs.len() - 1] == subs.last());
    }
}

proof fn lemma_some_mentions(es: Seq<SynExpr>, name: Seq<char>)
    requires
        any_mentions(es, name),
    ensures
        exists|i: int| 0 <= i < es.len() && mentions(#[trigger] es[i], name),
    decreases es.len(),
{
    let front = es.drop_last();
    if any_mentions(front, name) {
        lemma_some_mentions(front, name);
        let i = choose|i: int| 0 <= i < front.len() && mentions(#[trigger] front[i], name);
        assert(mentions(es[i], name));
    } else {
        assert(mentions(es[es.len() - 1], name));
    }
}

/// After substituting, an expression mentions no formal anywhere.
pub proof fn law_no_formal_remains(e: SynExpr, subs: Subs)
    requires
        closed(subs),
    ensures
        no_formal_in(super::subst::subst_expr(e, subs), subs),
    decreases e,
{
    let r = super::subst::subst_expr(e, subs);
    match e {
        SynExpr::Ident(n) => {
            if super::subst::actual_of(subs, n) is Some {
                lemma_actual_listed(subs, n);
                let a = super::subst::actual_of(subs, n).unwrap();
                assert(r == a);
                let k = choose|k: int| 0 <= k < subs.len() && (#[trigger] subs[k]).1 == a;
                assert(no_formal_in(subs[k].1, subs));
                assert(no_formal_in(r, subs));
            } else {
                assert(r == e);
                assert forall|name: Seq<char>| #[trigger]
                    mentions(r, name) implies super::subst::actual_of(subs, name) is None by {
                    assert(name == n);
                }
                assert(no_formal_in(r, subs));
            }
        },
        SynExpr::Number(_) => {},
        SynExpr::Binary { op, left, right } => {
            law_no_formal_remains(*left, subs);
            law_no_formal_remains(*right, subs);
            assert forall|name: Seq<char>| #[trigger]
                mentions(r, name) implies super::subst::actual_of(subs, name) is None by {
                assert(mentions(super::subst::subst_expr(*left, subs), name) || mentions(super::subst::subst_expr(*right, subs), name));
            }
        },
        SynExpr::Unary { op, operand } => {
            law_no_formal_remains(*operand, subs);
            assert forall|name: Seq<char>| #[trigger]
                mentions(r, name) implies super::subst::actual_of(subs, name) is None by {
                assert(mentions(super::subst::subst_expr(*operand, subs), name));
            }
        },
        SynExpr::Ternary { cond, then_expr, else_expr } => {
            law_no_formal_remains(*cond, subs);
            law_no_formal_remains(*then_expr, subs);
            law_no_formal_remains(*else_expr, subs);
            assert forall|name: Seq<char>| #[trigger]
                mentions(r, name) implies super::subst::actual_of(subs, name) is None by {
                assert(mentions(super::subst::subst_expr(*cond, subs), name) || mentions(super::subst::subst_expr(*then_expr, subs), name) || mentions(super::subst::subst_expr(*else_expr, subs), name));
            }
        },
        SynExpr::Concat(es) => {
            let rs = super::subst::subst_exprs(es, subs);
            assert forall|i: int| 0 <= i < es.len() implies no_formal_in(#[trigger] rs[i], subs) by {
                assert(decreases_to!(es => es[i]));
                law_no_formal_remains(es[i], subs);
            }
            assert forall|name: Seq<char>| #[trigger]
                mentions(r, name) implies super::subst::actual_of(subs, name) is None by {
                lemma_some_mentions(rs, name);
            }
        },
        SynExpr::Index { base, msb, lsb } => {
            law_no_formal_remains(*base, subs);
            law_no_formal_remains(*msb, subs);
            if let Some(x) = lsb {
                law_no_formal_remains(*x, subs);
            }
            assert forall|name: Seq<char>| #[trigger]
                mentions(r, name) implies super::subst::actual_of(subs, name) is None by {
                assert(mentions(super::subst::subst_expr(*base, subs), name) || mentions(
                    super::subst::subst_expr(*msb, subs),
                    name,
                ) || (lsb is Some && mentions(
                    super::subst::subst_expr(*lsb.unwrap(), subs),
                    name,
                )));
            }
        },
        SynExpr::Clog2(x) => {
            law_no_formal_remains(*x, subs);
            assert forall|name: Seq<char>| #[trigger]
                mentions(r, name) implies super::subst::actual_of(subs, name) is None by {
                assert(mentions(super::subst::subst_expr(*x, subs), name));
            }
        },
        SynExpr::Signed(x) => {
            law_no_formal_remains(*x, subs);
            assert forall|name: Seq<char>| #[trigger]
                mentions(r, name) implies super::subst::actual_of(subs, name) is None by {
                assert(mentions(super::subst::subst_expr(*x, subs), name));
            }
        },
    }
}

/// No index of the target mentions a formal.
pub open spec fn free_target(t: SynTarget, subs: Subs) -> bool
    decreases t,
{
    match t {
        SynTarget::Whole(_) => true,
        SynTarget::BitSelect { index, .. } => no_formal_in(index, subs),
        SynTarget::PartSelect { msb, lsb, .. } => no_formal_in(msb, subs) && no_formal_in(lsb, subs),
        SynTarget::Concat(ts) => forall|i: int|
            0 <= i < ts.len() ==> free_target(#[trigger] ts[i], subs),
    }
}

/// After substituting, no index of a target mentions a formal; a target without one stays as
/// it is.
pub proof fn law_target_substitution(t: SynTarget, subs: Subs)
    ensures
        closed(subs) ==> free_target(super::subst::subst_target(t, subs), subs),
        free_target(t, subs) ==> super::subst::subst_target(t, subs) == t,
    decreases t,
{
    match t {
        SynTarget::Whole(_) => {},
        SynTarget::BitSelect { index, .. } => {
            lemma_expr(index, subs);
        },
        SynTarget::PartSelect { msb, lsb, .. } => {
            lemma_expr(msb, subs);
            lemma_expr(lsb, subs);
        },
        SynTarget::Concat(ts) => {
            let rs = super::subst::subst_targets(ts, subs);
            assert forall|i: int| 0 <= i < ts.len() implies (closed(subs) ==> free_target(
                #[trigger] rs[i],
                subs,
            )) && (free_target(ts[i], subs) ==> rs[i] == ts[i]) by {
                assert(decreases_to!(ts => ts[i]));
                law_target_substitution(ts[i], subs);
            }
            if free_target(t, subs) {
                assert(rs =~= ts);
            }
        },
    }
}

proof fn lemma_expr(e: SynExpr, subs: Subs)
    ensures
        closed(subs) ==> no_formal_in(super::subst::subst_expr(e, subs), subs),
        no_formal_in(e, subs) ==> super::subst::subst_expr(e, subs) == e,
{
    if closed(subs) {
        law_no_formal_remains(e, subs);
    }
    if no_formal_in(e, subs) {
        law_substitution_needs_a_formal(e, subs);
    }
}

/// No expression of the statement mentions a formal.
pub open spec fn free_stmt(s: SynStmt, subs: Subs) -> bool
    decreases s,
{
    match s {
        SynStmt::BlockingAssign { target, rhs } => free_target(target, subs) && no_formal_in(
            rhs,
            subs,
        ),
        SynStmt::NonBlockingAssign { target, rhs } => free_target(target, subs) && no_formal_in(
            rhs,
            subs,
        ),
        SynStmt::IfElse { cond, then_body, else_body } => no_formal_in(cond, subs) && (forall|
            i: int,
        |
            0 <= i < then_body.stmts.len() ==> free_stmt(#[trigger] then_body.stmts[i], subs)) && (
        forall|i: int|
            0 <= i < else_body.stmts.len() ==> free_stmt(#[trigger] else_body.stmts[i], subs)),
        SynStmt::Case { expr, arms, default, .. } => no_formal_in(expr, subs) && (forall|
            i: int,
            j: int,
        |
            0 <= i < arms.len() && 0 <= j < arms[i].body.stmts.len() ==> free_stmt(
                #[trigger] arms[i].body.stmts[j],
                subs,
            )) && (forall|i: int|
            0 <= i < arms.len() ==> no_formal_in((#[trigger] arms[i]).value, subs)) && (forall|
            i: int,
        |
            0 <= i < default.stmts.len() ==> free_stmt(#[trigger] default.stmts[i], subs)),
        SynStmt::For { init_val, cond, step_expr, body, .. } => no_formal_in(init_val, subs)
            && no_formal_in(cond, subs) && no_formal_in(step_expr, subs) && (forall|i: int|
            0 <= i < body.stmts.len() ==> free_stmt(#[trigger] body.stmts[i], subs)),
        SynStmt::Delay(_) => true,
        SynStmt::SystemTask { args, .. } => forall|i: int|
            0 <= i < args.len() ==> no_formal_in(#[trigger] args[i], subs),
    }
}

/// After substituting, no expression of a statement mentions a formal; a statement without
/// one stays as it is.
pub proof fn law_statement_substitution(s: SynStmt, subs: Subs)
    ensures
        closed(subs) ==> free_stmt(super::subst::subst_stmt(s, subs), subs),
        free_stmt(s, subs) ==> super::subst::subst_stmt(s, subs) == s,
    decreases s,
{
    match s {
        SynStmt::BlockingAssign { target, rhs } => {
            law_target_substitution(target, subs);
            lemma_expr(rhs, subs);
        },
        SynStmt::NonBlockingAssign { target, rhs } => {
            law_target_substitution(target, subs);
            lemma_expr(rhs, subs);
        },
        SynStmt::IfElse { cond, then_body, else_body } => {
            lemma_expr(cond, subs);
            lemma_block(then_body, subs);
            lemma_block(else_body, subs);
        },
        SynStmt::Case { kind, expr, arms, default } => {
            lemma_expr(expr, subs);
            lemma_block(default, subs);
            let rs = super::subst::subst_arms(arms, subs);
            assert forall|i: int| 0 <= i < arms.len() implies (closed(subs) ==> no_formal_in(
                (#[trigger] rs[i]).value,
                subs,
            ) && free_block(rs[i].body, subs)) && (no_formal_in(arms[i].value, subs) && free_block(
                arms[i].body,
                subs,
            ) ==> rs[i] == arms[i]) by {
                assert(decreases_to!(arms => arms[i]));
                lemma_expr(arms[i].value, subs);
                lemma_block(arms[i].body, subs);
            }
            if closed(subs) {
                assert forall|i: int, j: int|
                    0 <= i < rs.len() && 0 <= j < rs[i].body.stmts.len() implies free_stmt(
                    #[trigger] rs[i].body.stmts[j],
                    subs,
                ) by {
                    assert(free_block(rs[i].body, subs));
                }
            }
            if free_stmt(s, subs) {
                assert forall|i: int| 0 <= i < arms.len() implies rs[i] == arms[i] by {
                    assert(no_formal_in(arms[i].value, subs));
                    assert forall|j: int| 0 <= j < arms[i].body.stmts.len() implies free_stmt(
                        #[trigger] arms[i].body.stmts[j],
                        subs,
                    ) by {}
                    assert(free_block(arms[i].body, subs));
                }
                assert(rs =~= arms);
            }
        },
        SynStmt::For { init_val, cond, step_expr, body, .. } => {
            lemma_expr(init_val, subs);
            lemma_expr(cond, subs);
            lemma_expr(step_expr, subs);
            lemma_block(body, subs);
        },
        SynStmt::Delay(_) => {},
        SynStmt::SystemTask { name, args } => {
            let rs = super::subst::subst_exprs(args, subs);
            assert forall|i: int| 0 <= i < args.len() implies (closed(subs) ==> no_formal_in(
                #[trigger] rs[i],
                subs,
            )) && (no_formal_in(args[i], subs) ==> rs[i] == args[i]) by {
                lemma_expr(args[i], subs);
            }
            if free_stmt(s, subs) {
                assert(rs =~= args);
            }
        },
    }
}

/// No statement of the block mentions a formal.
pub open spec fn free_block(b: SynBlock, subs: Subs) -> bool {
    forall|i: int| 0 <= i < b.stmts.len() ==> free_stmt(#[trigger] b.stmts[i], subs)
}

proof fn lemma_block(b: SynBlock, subs: Subs)
    ensures
        closed(subs) ==> free_block(super::subst::subst_block(b, subs), subs),
        free_block(b, subs) ==> super::subst::subst_block(b, subs) == b,
    decreases b,
{
    let rs = super::subst::subst_stmts(b.stmts, subs);
    assert forall|i: int| 0 <= i < b.stmts.len() implies (closed(subs) ==> free_stmt(
        #[trigger] rs[i],
        subs,
    )) && (free_stmt(b.stmts[i], subs) ==> rs[i] == b.stmts[i]) by {
        assert(decreases_to!(b.stmts => b.stmts[i]));
        law_statement_substitution(b.stmts[i], subs);
    }
    if free_block(b, subs) {
        assert(rs =~= b.stmts);
    }
}

/// No connection mentions a formal.
pub open spec fn free_conns(cs: Seq<SynConn>, subs: Subs) -> bool {
    forall|i: int| 0 <= i < cs.len() ==> no_formal_in((#[trigger] cs[i]).expr, subs)
}

/// No value mentions a formal.
pub open spec fn free_pairs(ps: Seq<(Seq<char>, SynExpr)>, subs: Subs) -> bool {
    forall|i: int| 0 <= i < ps.len() ==> no_formal_in((#[trigger] ps[i]).1, subs)
}

/// No assignment mentions a formal.
pub open spec fn free_assigns(s: Seq<(SynTarget, SynExpr, (u32, u32))>, subs: Subs) -> bool {
    forall|i: int|
        0 <= i < s.len() ==> free_target((#[trigger] s[i]).0, subs) && no_formal_in(s[i].1, subs)
}

/// No expression of the item mentions the variable, but inside a loop over a variable of the
/// same name.
pub open spec fn free_item(item: SynItem, var: Seq<char>, subs: Subs) -> bool
    decreases item,
{
    match item {
        SynItem::Assign { target, expr, .. } => free_target(target, subs) && no_formal_in(
            expr,
            subs,
        ),
        SynItem::Instance { parameter_assignments, connections, .. } => free_pairs(
            parameter_assignments,
            subs,
        ) && free_conns(connections, subs),
        SynItem::GenerateFor {
            loop_var,
            upper_expr,
            parameter_assignments,
            connections,
            ..
        } => no_formal_in(upper_expr, subs) && (loop_var == var || (free_pairs(
            parameter_assignments,
            subs,
        ) && free_conns(connections, subs))),
        SynItem::GenerateForAssigns { loop_var, upper_expr, assigns } => no_formal_in(
            upper_expr,
            subs,
        ) && (loop_var == var || free_assigns(assigns, subs)),
        SynItem::GenerateForBody { loop_var, upper_expr, body } => no_formal_in(upper_expr, subs)
            && (loop_var == var || forall|i: int|
            0 <= i < body.len() ==> free_item(#[trigger] body[i], var, subs)),
        SynItem::GenerateIf { cond, then_body, else_body } => no_formal_in(cond, subs) && (forall|
            i: int,
        |
            0 <= i < then_body.len() ==> free_item(#[trigger] then_body[i], var, subs)) && (forall|
            i: int,
        |
            0 <= i < else_body.len() ==> free_item(#[trigger] else_body[i], var, subs)),
        SynItem::GenerateCase { scrutinee, arms, default } => no_formal_in(scrutinee, subs) && (
        forall|i: int| 0 <= i < arms.len() ==> no_formal_in((#[trigger] arms[i]).0, subs)) && (
        forall|i: int, j: int|
            0 <= i < arms.len() && 0 <= j < arms[i].1.len() ==> free_item(
                #[trigger] arms[i].1[j],
                var,
                subs,
            )) && (forall|i: int|
            0 <= i < default.len() ==> free_item(#[trigger] default[i], var, subs)),
        _ => true,
    }
}

/// No item mentions the variable.
pub open spec fn free_items(items: Seq<SynItem>, var: Seq<char>, subs: Subs) -> bool {
    forall|i: int| 0 <= i < items.len() ==> free_item(#[trigger] items[i], var, subs)
}

proof fn lemma_index_closed(var: Seq<char>, k: i64)
    ensures
        closed(super::subst::index_for(var, k)),
{
}

proof fn lemma_conns(cs: Seq<SynConn>, subs: Subs)
    requires
        closed(subs),
    ensures
        free_conns(super::subst::subst_conns(cs, subs), subs),
        free_conns(cs, subs) ==> super::subst::subst_conns(cs, subs) == cs,
{
    let rs = super::subst::subst_conns(cs, subs);
    assert forall|i: int| 0 <= i < cs.len() implies no_formal_in((#[trigger] rs[i]).expr, subs) && (
    no_formal_in(cs[i].expr, subs) ==> rs[i] == cs[i]) by {
        lemma_expr(cs[i].expr, subs);
    }
    if free_conns(cs, subs) {
        assert forall|i: int| 0 <= i < cs.len() implies rs[i] == cs[i] by {
            assert(no_formal_in(cs[i].expr, subs));
        }
        assert(rs =~= cs);
    }
}

proof fn lemma_pairs(ps: Seq<(Seq<char>, SynExpr)>, subs: Subs)
    requires
        closed(subs),
    ensures
        free_pairs(super::subst::subst_pairs(ps, subs), subs),
        free_pairs(ps, subs) ==> super::subst::subst_pairs(ps, subs) == ps,
{
    let rs = super::subst::subst_pairs(ps, subs);
    assert forall|i: int| 0 <= i < ps.len() implies no_formal_in((#[trigger] rs[i]).1, subs) && (
    no_formal_in(ps[i].1, subs) ==> rs[i] == ps[i]) by {
        lemma_expr(ps[i].1, subs);
    }
    if free_pairs(ps, subs) {
        assert forall|i: int| 0 <= i < ps.len() implies rs[i] == ps[i] by {
            assert(no_formal_in(ps[i].1, subs));
        }
        assert(rs =~= ps);
    }
}

proof fn lemma_gen_assigns(s: Seq<(SynTarget, SynExpr, (u32, u32))>, subs: Subs)
    requires
        closed(subs),
    ensures
        free_assigns(super::subst::subst_gen_assigns(s, subs), subs),
        free_assigns(s, subs) ==> super::subst::subst_gen_assigns(s, subs) == s,
{
    let rs = super::subst::subst_gen_assigns(s, subs);
    assert forall|i: int| 0 <= i < s.len() implies free_target((#[trigger] rs[i]).0, subs)
        && no_formal_in(rs[i].1, subs) && (free_target(s[i].0, subs) && no_formal_in(s[i].1, subs)
        ==> rs[i] == s[i]) by {
        law_target_substitution(s[i].0, subs);
        lemma_expr(s[i].1, subs);
    }
    if free_assigns(s, subs) {
        assert forall|i: int| 0 <= i < s.len() implies rs[i] == s[i] by {
            assert(free_target(s[i].0, subs));
        }
        assert(rs =~= s);
    }
}

/// Writing an index in place of a generate variable leaves no mention of the variable in an
/// item, but inside a loop over a variable of the same name; an item without one stays as it
/// is.
pub proof fn law_item_substitution(item: SynItem, var: Seq<char>, k: i64)
    ensures
        free_item(
            super::subst::subst_item(item, var, k),
            var,
            super::subst::index_for(var, k),
        ),
        free_item(item, var, super::subst::index_for(var, k)) ==> super::subst::subst_item(
            item,
            var,
            k,
        ) == item,
    decreases item,
{
    let subs = super::subst::index_for(var, k);
    lemma_index_closed(var, k);
    match item {
        SynItem::Assign { target, expr, .. } => {
            law_target_substitution(target, subs);
            lemma_expr(expr, subs);
        },
        SynItem::Instance { parameter_assignments, connections, .. } => {
            lemma_pairs(parameter_assignments, subs);
            lemma_conns(connections, subs);
        },
        SynItem::GenerateFor { upper_expr, parameter_assignments, connections, .. } => {
            lemma_expr(upper_expr, subs);
            lemma_pairs(parameter_assignments, subs);
            lemma_conns(connections, subs);
        },
        SynItem::GenerateForAssigns { upper_expr, assigns, .. } => {
            lemma_expr(upper_expr, subs);
            lemma_gen_assigns(assigns, subs);
        },
        SynItem::GenerateForBody { upper_expr, body, .. } => {
            lemma_expr(upper_expr, subs);
            lemma_items(body, var, k);
        },
        SynItem::GenerateIf { cond, then_body, else_body } => {
            lemma_expr(cond, subs);
            lemma_items(then_body, var, k);
            lemma_items(else_body, var, k);
        },
        SynItem::GenerateCase { scrutinee, arms, default } => {
            lemma_expr(scrutinee, subs);
            lemma_items(default, var, k);
            let rs = super::subst::subst_gen_arms(arms, var, k);
            assert forall|i: int| 0 <= i < arms.len() implies no_formal_in((#[trigger] rs[i]).0, subs)
                && free_items(rs[i].1, var, subs) && (no_formal_in(arms[i].0, subs) && free_items(
                arms[i].1,
                var,
                subs,
            ) ==> rs[i] == arms[i]) by {
                assert(decreases_to!(arms => arms[i]));
                lemma_expr(arms[i].0, subs);
                lemma_items(arms[i].1, var, k);
            }
            assert forall|i: int, j: int| 0 <= i < rs.len() && 0 <= j < rs[i].1.len() implies free_item(
                #[trigger] rs[i].1[j],
                var,
                subs,
            ) by {
                assert(free_items(rs[i].1, var, subs));
            }
            if free_item(item, var, subs) {
                assert forall|i: int| 0 <= i < arms.len() implies rs[i] == arms[i] by {
                    assert(no_formal_in(arms[i].0, subs));
                    assert forall|j: int| 0 <= j < arms[i].1.len() implies free_item(
                        #[trigger] arms[i].1[j],
                        var,
                        subs,
                    ) by {}
                    assert(free_items(arms[i].1, var, subs));
                }
                assert(rs =~= arms);
            }
        },
        _ => {},
    }
}

proof fn lemma_items(items: Seq<SynItem>, var: Seq<char>, k: i64)
    ensures
        free_items(
            super::subst::subst_items(items, var, k),
            var,
            super::subst::index_for(var, k),
        ),
        free_items(items, var, super::subst::index_for(var, k)) ==> super::subst::subst_items(
            items,
            var,
            k,
        ) == items,
    decreases items,
{
    let subs = super::subst::index_for(var, k);
    let rs = super::subst::subst_items(items, var, k);
    assert forall|i: int| 0 <= i < items.len() implies free_item(#[trigger] rs[i], var, subs) && (
    free_item(items[i], var, subs) ==> rs[i] == items[i]) by {
        assert(decreases_to!(items => items[i]));
        law_item_substitution(items[i], var, k);
    }
    if free_items(items, var, subs) {
        assert(rs =~= items);
    }
}

} // verus!
