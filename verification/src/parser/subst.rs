//! Substitution of expressions for identifiers: arguments for formals where functions and
//! tasks are inlined, and loop indices for generate variables.
use super::cst::{
    clone_conns, clone_items, clone_pairs, AssignTarget, CaseArm, CstBlock, CstModuleItem, CstStmt, Expr,
    PortConnection, SynArm, SynBlock, SynConn, SynExpr, SynItem, SynStmt, SynTarget,
};
use crate::number::i64_text;
use crate::text::str_eq;
use vstd::prelude::*;

verus! {

/// `(formal, actual)` pairs.
pub type Subs = Seq<(Seq<char>, SynExpr)>;

/// The actual of the first formal that is `name`.
pub open spec fn actual_of(subs: Subs, name: Seq<char>) -> Option<SynExpr>
    decreases subs.len(),
{
    if subs.len() == 0 {
        None
    } else {
        match actual_of(subs.drop_last(), name) {
            Some(e) => Some(e),
            None => if subs.last().0 == name {
                Some(subs.last().1)
            } else {
                None
            },
        }
    }
}

/// `e` with every identifier that has an actual replaced by it.
pub open spec fn subst_expr(e: SynExpr, subs: Subs) -> SynExpr
    decreases e,
{
    match e {
        SynExpr::Ident(name) => match actual_of(subs, name) {
            Some(a) => a,
            None => e,
        },
        SynExpr::Number(_) => e,
        SynExpr::Binary { op, left, right } => SynExpr::Binary {
            op,
            left: Box::new(subst_expr(*left, subs)),
            right: Box::new(subst_expr(*right, subs)),
        },
        SynExpr::Unary { op, operand } => SynExpr::Unary {
            op,
            operand: Box::new(subst_expr(*operand, subs)),
        },
        SynExpr::Ternary { cond, then_expr, else_expr } => SynExpr::Ternary {
            cond: Box::new(subst_expr(*cond, subs)),
            then_expr: Box::new(subst_expr(*then_expr, subs)),
            else_expr: Box::new(subst_expr(*else_expr, subs)),
        },
        SynExpr::Concat(es) => SynExpr::Concat(subst_exprs(es, subs)),
        SynExpr::Index { base, msb, lsb } => SynExpr::Index {
            base: Box::new(subst_expr(*base, subs)),
            msb: Box::new(subst_expr(*msb, subs)),
            lsb: match lsb {
                Some(x) => Some(Box::new(subst_expr(*x, subs))),
                None => None,
            },
        },
        SynExpr::Clog2(x) => SynExpr::Clog2(Box::new(subst_expr(*x, subs))),
        SynExpr::Signed(x) => SynExpr::Signed(Box::new(subst_expr(*x, subs))),
    }
}

pub open spec fn subst_exprs(es: Seq<SynExpr>, subs: Subs) -> Seq<SynExpr>
    decreases es,
{
    Seq::new(
        es.len(),
        |i: int|
            if 0 <= i < es.len() {
                subst_expr(es[i], subs)
            } else {
                arbitrary()
            },
    )
}

/// `t` with substituted indices; the name assigned to is never replaced.
pub open spec fn subst_target(t: SynTarget, subs: Subs) -> SynTarget
    decreases t,
{
    match t {
        SynTarget::Whole(_) => t,
        SynTarget::BitSelect { reg, index } => SynTarget::BitSelect {
            reg,
            index: subst_expr(index, subs),
        },
        SynTarget::PartSelect { reg, msb, lsb } => SynTarget::PartSelect {
            reg,
            msb: subst_expr(msb, subs),
            lsb: subst_expr(lsb, subs),
        },
        SynTarget::Concat(ts) => SynTarget::Concat(subst_targets(ts, subs)),
    }
}

pub open spec fn subst_targets(ts: Seq<SynTarget>, subs: Subs) -> Seq<SynTarget>
    decreases ts,
{
    Seq::new(
        ts.len(),
        |i: int|
            if 0 <= i < ts.len() {
                subst_target(ts[i], subs)
            } else {
                arbitrary()
            },
    )
}

/// `s` with every expression in it substituted, at any depth.
pub open spec fn subst_stmt(s: SynStmt, subs: Subs) -> SynStmt
    decreases s,
{
    match s {
        SynStmt::BlockingAssign { target, rhs } => SynStmt::BlockingAssign {
            target: subst_target(target, subs),
            rhs: subst_expr(rhs, subs),
        },
        SynStmt::NonBlockingAssign { target, rhs } => SynStmt::NonBlockingAssign {
            target: subst_target(target, subs),
            rhs: subst_expr(rhs, subs),
        },
        SynStmt::IfElse { cond, then_body, else_body } => SynStmt::IfElse {
            cond: subst_expr(cond, subs),
            then_body: subst_block(then_body, subs),
            else_body: subst_block(else_body, subs),
        },
        SynStmt::Case { kind, expr, arms, default } => SynStmt::Case {
            kind,
            expr: subst_expr(expr, subs),
            arms: subst_arms(arms, subs),
            default: subst_block(default, subs),
        },
        SynStmt::For { init_var, init_val, cond, step_var, step_expr, body } => SynStmt::For {
            init_var,
            init_val: subst_expr(init_val, subs),
            cond: subst_expr(cond, subs),
            step_var,
            step_expr: subst_expr(step_expr, subs),
            body: subst_block(body, subs),
        },
        SynStmt::Delay(_) => s,
        SynStmt::SystemTask { name, args } => SynStmt::SystemTask {
            name,
            args: subst_exprs(args, subs),
        },
    }
}

pub open spec fn subst_block(b: SynBlock, subs: Subs) -> SynBlock
    decreases b,
{
    SynBlock { stmts: subst_stmts(b.stmts, subs), ranges: b.ranges }
}

pub open spec fn subst_stmts(ss: Seq<SynStmt>, subs: Subs) -> Seq<SynStmt>
    decreases ss,
{
    Seq::new(
        ss.len(),
        |i: int|
            if 0 <= i < ss.len() {
                subst_stmt(ss[i], subs)
            } else {
                arbitrary()
            },
    )
}

pub open spec fn subst_arms(arms: Seq<SynArm>, subs: Subs) -> Seq<SynArm>
    decreases arms,
{
    Seq::new(
        arms.len(),
        |i: int|
            if 0 <= i < arms.len() {
                SynArm {
                    value: subst_expr(arms[i].value, subs),
                    body: subst_block(arms[i].body, subs),
                }
            } else {
                arbitrary()
            },
    )
}

fn find_actual(subs: &[(String, Expr)], name: &str) -> (r: Option<Expr>)
    ensures
        match r {
            Some(e) => actual_of(super::cst::pairs_view(subs@), name@) == Some(e@),
            None => actual_of(super::cst::pairs_view(subs@), name@) is None,
        },
{
    let ghost model = super::cst::pairs_view(subs@);
    let mut i: usize = 0;
    while i < subs.len()
        invariant
            i <= subs@.len(),
            model == super::cst::pairs_view(subs@),
            actual_of(model.take(i as int), name@) is None,
        decreases subs@.len() - i,
    {
        assert(model.take(i + 1).drop_last() == model.take(i as int));
        assert(model.take(i + 1).last() == model[i as int]);
        if str_eq(subs[i].0.as_str(), name) {
            proof {
                lemma_actual_prefix(model, i + 1, name@);
            }
            return Some(subs[i].1.clone());
        }
        i = i + 1;
    }
    assert(model.take(i as int) == model);
    None
}

proof fn lemma_actual_prefix(subs: Subs, k: int, name: Seq<char>)
    requires
        0 <= k <= subs.len(),
        actual_of(subs.take(k), name) is Some,
    ensures
        actual_of(subs, name) == actual_of(subs.take(k), name),
    decreases subs.len(),
{
    if k == subs.len() {
        assert(subs.take(k) == subs);
    } else {
        assert(subs.drop_last().take(k) == subs.take(k));
        lemma_actual_prefix(subs.drop_last(), k, name);
    }
}

/// Substitutes several identifiers in an expression.
pub fn subst_expr_multi(e: &Expr, subs: &[(String, Expr)]) -> (r: Expr)
    ensures
        r@ == subst_expr(e@, super::cst::pairs_view(subs@)),
    decreases e,
{
    match e {
        Expr::Ident(name) => match find_actual(subs, name.as_str()) {
            Some(a) => a,
            None => Expr::Ident(name.clone()),
        },
        Expr::Number(n) => Expr::Number(n.clone()),
        Expr::Binary { op, left, right } => Expr::Binary {
            op: *op,
            left: Box::new(subst_expr_multi(left, subs)),
            right: Box::new(subst_expr_multi(right, subs)),
        },
        Expr::Unary { op, operand } => Expr::Unary {
            op: *op,
            operand: Box::new(subst_expr_multi(operand, subs)),
        },
        Expr::Ternary { cond, then_expr, else_expr } => Expr::Ternary {
            cond: Box::new(subst_expr_multi(cond, subs)),
            then_expr: Box::new(subst_expr_multi(then_expr, subs)),
            else_expr: Box::new(subst_expr_multi(else_expr, subs)),
        },
        Expr::Concat(es) => {
            let r = subst_all(es, subs);
            Expr::Concat(r)
        },
        Expr::Index { base, msb, lsb } => Expr::Index {
            base: Box::new(subst_expr_multi(base, subs)),
            msb: Box::new(subst_expr_multi(msb, subs)),
            lsb: match lsb {
                Some(x) => Some(Box::new(subst_expr_multi(x, subs))),
                None => None,
            },
        },
        Expr::Clog2(x) => Expr::Clog2(Box::new(subst_expr_multi(x, subs))),
        Expr::Signed(x) => Expr::Signed(Box::new(subst_expr_multi(x, subs))),
    }
}

fn subst_all(es: &Vec<Expr>, subs: &[(String, Expr)]) -> (r: Vec<Expr>)
    ensures
        super::cst::exprs_view(r@) == subst_exprs(
            super::cst::exprs_view(es@),
            super::cst::pairs_view(subs@),
        ),
    decreases es,
{
    let ghost model = super::cst::pairs_view(subs@);
    let mut out: Vec<Expr> = Vec::new();
    let mut i: usize = 0;
    while i < es.len()
        invariant
            i <= es@.len(),
            model == super::cst::pairs_view(subs@),
            out@.len() == i,
            forall|j: int| 0 <= j < i ==> (#[trigger] out@[j])@ == subst_expr(es@[j]@, model),
        decreases es@.len() - i,
    {
        assert(decreases_to!(es => es@));
        assert(decreases_to!(es@ => es@[i as int]));
        out.push(subst_expr_multi(&es[i], subs));
        i = i + 1;
    }
    assert(super::cst::exprs_view(out@) =~= subst_exprs(super::cst::exprs_view(es@), model));
    out
}

/// Substitutes identifiers in the indices of a target.
pub fn subst_target_multi(t: &AssignTarget, subs: &[(String, Expr)]) -> (r: AssignTarget)
    ensures
        r@ == subst_target(t@, super::cst::pairs_view(subs@)),
    decreases t,
{
    match t {
        AssignTarget::Whole(name) => AssignTarget::Whole(name.clone()),
        AssignTarget::BitSelect { reg, index } => AssignTarget::BitSelect {
            reg: reg.clone(),
            index: subst_expr_multi(index, subs),
        },
        AssignTarget::PartSelect { reg, msb, lsb } => AssignTarget::PartSelect {
            reg: reg.clone(),
            msb: subst_expr_multi(msb, subs),
            lsb: subst_expr_multi(lsb, subs),
        },
        AssignTarget::Concat(ts) => {
            let ghost model = super::cst::pairs_view(subs@);
            let mut out: Vec<AssignTarget> = Vec::new();
            let mut i: usize = 0;
            while i < ts.len()
                invariant
                    i <= ts@.len(),
                    model == super::cst::pairs_view(subs@),
                    out@.len() == i,
                    forall|j: int|
                        0 <= j < i ==> (#[trigger] out@[j])@ == subst_target(ts@[j]@, model),
                    decreases_to!(t => ts@),
                decreases ts@.len() - i,
            {
                assert(decreases_to!(ts@ => ts@[i as int]));
                out.push(subst_target_multi(&ts[i], subs));
                i = i + 1;
            }
            assert(super::cst::targets_view(out@) =~= subst_targets(
                super::cst::targets_view(ts@),
                model,
            ));
            AssignTarget::Concat(out)
        },
    }
}

/// Substitutes identifiers in a statement, for a task body at a call.
pub fn subst_stmt_multi(s: &CstStmt, subs: &[(String, Expr)]) -> (r: CstStmt)
    ensures
        r@ == subst_stmt(s@, super::cst::pairs_view(subs@)),
    decreases s,
{
    match s {
        CstStmt::BlockingAssign { target, rhs } => CstStmt::BlockingAssign {
            target: subst_target_multi(target, subs),
            rhs: subst_expr_multi(rhs, subs),
        },
        CstStmt::NonBlockingAssign { target, rhs } => CstStmt::NonBlockingAssign {
            target: subst_target_multi(target, subs),
            rhs: subst_expr_multi(rhs, subs),
        },
        CstStmt::IfElse { cond, then_body, else_body } => CstStmt::IfElse {
            cond: subst_expr_multi(cond, subs),
            then_body: subst_block_multi(then_body, subs),
            else_body: subst_block_multi(else_body, subs),
        },
        CstStmt::Case { kind, expr, arms, default } => {
            let ghost model = super::cst::pairs_view(subs@);
            let mut out: Vec<CaseArm> = Vec::new();
            let mut i: usize = 0;
            while i < arms.len()
                invariant
                    i <= arms@.len(),
                    model == super::cst::pairs_view(subs@),
                    out@.len() == i,
                    forall|j: int|
                        0 <= j < i ==> (#[trigger] out@[j])@ == (SynArm {
                            value: subst_expr(arms@[j].value@, model),
                            body: subst_block(arms@[j].body@, model),
                        }),
                    decreases_to!(s => arms@),
                decreases arms@.len() - i,
            {
                assert(decreases_to!(arms@ => arms@[i as int]));
                let arm = &arms[i];
                out.push(
                    CaseArm {
                        value: subst_expr_multi(&arm.value, subs),
                        body: subst_block_multi(&arm.body, subs),
                    },
                );
                i = i + 1;
            }
            assert(super::cst::arms_view(out@) =~= subst_arms(super::cst::arms_view(arms@), model));
            CstStmt::Case {
                kind: *kind,
                expr: subst_expr_multi(expr, subs),
                arms: out,
                default: subst_block_multi(default, subs),
            }
        },
        CstStmt::For { init_var, init_val, cond, step_var, step_expr, body } => CstStmt::For {
            init_var: init_var.clone(),
            init_val: subst_expr_multi(init_val, subs),
            cond: subst_expr_multi(cond, subs),
            step_var: step_var.clone(),
            step_expr: subst_expr_multi(step_expr, subs),
            body: subst_block_multi(body, subs),
        },
        CstStmt::Delay(d) => CstStmt::Delay(*d),
        CstStmt::SystemTask { name, args } => CstStmt::SystemTask {
            name: name.clone(),
            args: subst_all(args, subs),
        },
    }
}

fn subst_block_multi(b: &CstBlock, subs: &[(String, Expr)]) -> (r: CstBlock)
    ensures
        r@ == subst_block(b@, super::cst::pairs_view(subs@)),
    decreases b,
{
    let stmts = b.stmts();
    let out = subst_all_stmts(stmts, subs);
    assert(super::cst::stmts_view(out@).len() == b@.stmts.len());
    CstBlock::with_ranges_of(out, b)
}

/// Substitutes identifiers in a list of statements.
pub fn subst_all_stmts(stmts: &[CstStmt], subs: &[(String, Expr)]) -> (r: Vec<CstStmt>)
    ensures
        super::cst::stmts_view(r@) == subst_stmts(
            super::cst::stmts_view(stmts@),
            super::cst::pairs_view(subs@),
        ),
    decreases stmts@,
{
    let ghost model = super::cst::pairs_view(subs@);
    let mut out: Vec<CstStmt> = Vec::new();
    let mut i: usize = 0;
    while i < stmts.len()
        invariant
            i <= stmts@.len(),
            model == super::cst::pairs_view(subs@),
            out@.len() == i,
            forall|j: int| 0 <= j < i ==> (#[trigger] out@[j])@ == subst_stmt(stmts@[j]@, model),
        decreases stmts@.len() - i,
    {
        assert(decreases_to!(stmts@ => stmts@[i as int]));
        out.push(subst_stmt_multi(&stmts[i], subs));
        i = i + 1;
    }
    assert(super::cst::stmts_view(out@) =~= subst_stmts(super::cst::stmts_view(stmts@), model));
    out
}

/// The substitution of the number `k` for a generate variable.
pub open spec fn index_for(var: Seq<char>, k: i64) -> Subs {
    seq![(var, SynExpr::Number(crate::number::decimal(k as int)))]
}

fn index_subs(loop_var: &str, k: i64) -> (r: Vec<(String, Expr)>)
    ensures
        super::cst::pairs_view(r@) == index_for(loop_var@, k),
{
    let mut out: Vec<(String, Expr)> = Vec::new();
    out.push((loop_var.to_owned(), Expr::Number(i64_text(k))));
    assert(super::cst::pairs_view(out@) =~= index_for(loop_var@, k));
    out
}

/// Substitutes the number `k` for a generate variable in an expression.
pub fn subst_expr_loop_var(e: &Expr, loop_var: &str, k: i64) -> (r: Expr)
    ensures
        r@ == subst_expr(e@, index_for(loop_var@, k)),
{
    let subs = index_subs(loop_var, k);
    subst_expr_multi(e, subs.as_slice())
}

/// Substitutes the number `k` for a generate variable in a target.
pub fn subst_target_loop_var(t: &AssignTarget, loop_var: &str, k: i64) -> (r: AssignTarget)
    ensures
        r@ == subst_target(t@, index_for(loop_var@, k)),
{
    let subs = index_subs(loop_var, k);
    subst_target_multi(t, subs.as_slice())
}

/// A connection with its expression substituted.
pub open spec fn subst_conn(c: SynConn, subs: Subs) -> SynConn {
    SynConn { port_name: c.port_name, expr: subst_expr(c.expr, subs), range: c.range }
}

pub open spec fn subst_conns(cs: Seq<SynConn>, subs: Subs) -> Seq<SynConn> {
    Seq::new(cs.len(), |i: int| subst_conn(cs[i], subs))
}

pub open spec fn subst_pairs(ps: Seq<(Seq<char>, SynExpr)>, subs: Subs) -> Seq<
    (Seq<char>, SynExpr),
> {
    Seq::new(ps.len(), |i: int| (ps[i].0, subst_expr(ps[i].1, subs)))
}

pub open spec fn subst_gen_assigns(
    s: Seq<(SynTarget, SynExpr, (u32, u32))>,
    subs: Subs,
) -> Seq<(SynTarget, SynExpr, (u32, u32))> {
    Seq::new(s.len(), |i: int| (subst_target(s[i].0, subs), subst_expr(s[i].1, subs), s[i].2))
}

/// Substitutes the number `k` for a generate variable in port connections.
pub fn subst_port_connections(conns: &[PortConnection], loop_var: &str, k: i64) -> (r: Vec<
    PortConnection,
>)
    ensures
        super::cst::conns_view(r@) == subst_conns(
            super::cst::conns_view(conns@),
            index_for(loop_var@, k),
        ),
{
    let ghost subs = index_for(loop_var@, k);
    let mut out: Vec<PortConnection> = Vec::new();
    let mut i: usize = 0;
    while i < conns.len()
        invariant
            i <= conns@.len(),
            subs == index_for(loop_var@, k),
            out@.len() == i,
            forall|j: int| 0 <= j < i ==> (#[trigger] out@[j])@ == subst_conn(conns@[j]@, subs),
        decreases conns@.len() - i,
    {
        let c = &conns[i];
        let port_name = match &c.port_name {
            Some(n) => Some(n.clone()),
            None => None,
        };
        out.push(
            PortConnection {
                port_name,
                expr: subst_expr_loop_var(&c.expr, loop_var, k),
                range: c.range,
            },
        );
        i = i + 1;
    }
    assert(super::cst::conns_view(out@) =~= subst_conns(super::cst::conns_view(conns@), subs));
    out
}

fn subst_pairs_loop_var(pairs: &Vec<(String, Expr)>, loop_var: &str, k: i64) -> (r: Vec<
    (String, Expr),
>)
    ensures
        super::cst::pairs_view(r@) == subst_pairs(
            super::cst::pairs_view(pairs@),
            index_for(loop_var@, k),
        ),
{
    let ghost subs = index_for(loop_var@, k);
    let mut out: Vec<(String, Expr)> = Vec::new();
    let mut i: usize = 0;
    while i < pairs.len()
        invariant
            i <= pairs@.len(),
            subs == index_for(loop_var@, k),
            out@.len() == i,
            forall|j: int|
                0 <= j < i ==> (#[trigger] out@[j]).0@ == pairs@[j].0@ && out@[j].1@ == subst_expr(
                    pairs@[j].1@,
                    subs,
                ),
        decreases pairs@.len() - i,
    {
        let p = &pairs[i];
        out.push((p.0.clone(), subst_expr_loop_var(&p.1, loop_var, k)));
        i = i + 1;
    }
    assert(super::cst::pairs_view(out@) =~= subst_pairs(super::cst::pairs_view(pairs@), subs));
    out
}

/// A module item with the number `k` for the generate variable `var`. The bound of an
/// inner generate loop is substituted always; its body is not where the inner loop binds
/// the same name.
pub open spec fn subst_item(item: SynItem, var: Seq<char>, k: i64) -> SynItem
    decreases item,
{
    let subs = index_for(var, k);
    match item {
        SynItem::Assign { target, expr, range } => SynItem::Assign {
            target: subst_target(target, subs),
            expr: subst_expr(expr, subs),
            range,
        },
        SynItem::Instance { module_name, parameter_assignments, instance_name, connections } =>
            SynItem::Instance {
            module_name,
            parameter_assignments: subst_pairs(parameter_assignments, subs),
            instance_name,
            connections: subst_conns(connections, subs),
        },
        SynItem::GenerateFor {
            loop_var,
            upper_expr,
            module_name,
            parameter_assignments,
            instance_stem,
            connections,
        } => SynItem::GenerateFor {
            loop_var,
            upper_expr: subst_expr(upper_expr, subs),
            module_name,
            parameter_assignments: if loop_var == var {
                parameter_assignments
            } else {
                subst_pairs(parameter_assignments, subs)
            },
            instance_stem,
            connections: if loop_var == var {
                connections
            } else {
                subst_conns(connections, subs)
            },
        },
        SynItem::GenerateForAssigns { loop_var, upper_expr, assigns } =>
            SynItem::GenerateForAssigns {
            loop_var,
            upper_expr: subst_expr(upper_expr, subs),
            assigns: if loop_var == var {
                assigns
            } else {
                subst_gen_assigns(assigns, subs)
            },
        },
        SynItem::GenerateForBody { loop_var, upper_expr, body } => SynItem::GenerateForBody {
            loop_var,
            upper_expr: subst_expr(upper_expr, subs),
            body: if loop_var == var {
                body
            } else {
                subst_items(body, var, k)
            },
        },
        SynItem::GenerateIf { cond, then_body, else_body } => SynItem::GenerateIf {
            cond: subst_expr(cond, subs),
            then_body: subst_items(then_body, var, k),
            else_body: subst_items(else_body, var, k),
        },
        SynItem::GenerateCase { scrutinee, arms, default } => SynItem::GenerateCase {
            scrutinee: subst_expr(scrutinee, subs),
            arms: subst_gen_arms(arms, var, k),
            default: subst_items(default, var, k),
        },
        _ => item,
    }
}

pub open spec fn subst_items(items: Seq<SynItem>, var: Seq<char>, k: i64) -> Seq<SynItem>
    decreases items,
{
    Seq::new(
        items.len(),
        |i: int|
            if 0 <= i < items.len() {
                subst_item(items[i], var, k)
            } else {
                arbitrary()
            },
    )
}

pub open spec fn subst_gen_arms(
    arms: Seq<(SynExpr, Seq<SynItem>)>,
    var: Seq<char>,
    k: i64,
) -> Seq<(SynExpr, Seq<SynItem>)>
    decreases arms,
{
    Seq::new(
        arms.len(),
        |i: int|
            if 0 <= i < arms.len() {
                (subst_expr(arms[i].0, index_for(var, k)), subst_items(arms[i].1, var, k))
            } else {
                arbitrary()
            },
    )
}

fn subst_all_items(items: &Vec<CstModuleItem>, loop_var: &str, k: i64) -> (r: Vec<CstModuleItem>)
    ensures
        super::cst::items_view(r@) == subst_items(super::cst::items_view(items@), loop_var@, k),
    decreases items,
{
    let mut out: Vec<CstModuleItem> = Vec::new();
    let mut i: usize = 0;
    while i < items.len()
        invariant
            i <= items@.len(),
            out@.len() == i,
            forall|j: int|
                0 <= j < i ==> (#[trigger] out@[j])@ == subst_item(items@[j]@, loop_var@, k),
        decreases items@.len() - i,
    {
        assert(decreases_to!(items => items@));
        assert(decreases_to!(items@ => items@[i as int]));
        out.push(subst_module_item_loop_var(&items[i], loop_var, k));
        i = i + 1;
    }
    assert(super::cst::items_view(out@) =~= subst_items(
        super::cst::items_view(items@),
        loop_var@,
        k,
    ));
    out
}

/// Substitutes the number `k` for a generate variable in a module item.
pub fn subst_module_item_loop_var(item: &CstModuleItem, loop_var: &str, k: i64) -> (r:
    CstModuleItem)
    ensures
        r@ == subst_item(item@, loop_var@, k),
    decreases item,
{
    match item {
        CstModuleItem::Assign { target, expr, range } => CstModuleItem::Assign {
            target: subst_target_loop_var(target, loop_var, k),
            expr: subst_expr_loop_var(expr, loop_var, k),
            range: *range,
        },
        CstModuleItem::Instance {
            module_name,
            parameter_assignments,
            instance_name,
            connections,
        } => CstModuleItem::Instance {
            module_name: module_name.clone(),
            parameter_assignments: subst_pairs_loop_var(parameter_assignments, loop_var, k),
            instance_name: instance_name.clone(),
            connections: subst_port_connections(connections.as_slice(), loop_var, k),
        },
        CstModuleItem::GenerateFor {
            loop_var: inner_var,
            upper_expr,
            module_name,
            parameter_assignments,
            instance_stem,
            connections,
        } => {
            let upper_expr = subst_expr_loop_var(upper_expr, loop_var, k);
            let shadowed = str_eq(inner_var.as_str(), loop_var);
            let parameter_assignments = if shadowed {
                clone_pairs(parameter_assignments)
            } else {
                subst_pairs_loop_var(parameter_assignments, loop_var, k)
            };
            let connections = if shadowed {
                clone_conns(connections)
            } else {
                subst_port_connections(connections.as_slice(), loop_var, k)
            };
            CstModuleItem::GenerateFor {
                loop_var: inner_var.clone(),
                upper_expr,
                module_name: module_name.clone(),
                parameter_assignments,
                instance_stem: instance_stem.clone(),
                connections,
            }
        },
        CstModuleItem::GenerateForAssigns { loop_var: inner_var, upper_expr, assigns } => {
            let ghost subs = index_for(loop_var@, k);
            let upper_expr = subst_expr_loop_var(upper_expr, loop_var, k);
            let shadowed = str_eq(inner_var.as_str(), loop_var);
            let ghost model = super::cst::gen_assigns_view(assigns@);
            let mut out: Vec<(AssignTarget, Expr, (u32, u32))> = Vec::new();
            let mut i: usize = 0;
            while i < assigns.len()
                invariant
                    i <= assigns@.len(),
                    subs == index_for(loop_var@, k),
                    model == super::cst::gen_assigns_view(assigns@),
                    out@.len() == i,
                    forall|j: int|
                        0 <= j < i ==> ((#[trigger] out@[j]).0@, out@[j].1@, out@[j].2) == if shadowed {
                            model[j]
                        } else {
                            (subst_target(model[j].0, subs), subst_expr(model[j].1, subs), model[j].2)
                        },
                decreases assigns@.len() - i,
            {
                let a = &assigns[i];
                if shadowed {
                    out.push((a.0.clone(), a.1.clone(), a.2));
                } else {
                    out.push(
                        (
                            subst_target_loop_var(&a.0, loop_var, k),
                            subst_expr_loop_var(&a.1, loop_var, k),
                            a.2,
                        ),
                    );
                }
                i = i + 1;
            }
            proof {
                if shadowed {
                    assert(super::cst::gen_assigns_view(out@) =~= model);
                } else {
                    assert(super::cst::gen_assigns_view(out@) =~= subst_gen_assigns(model, subs));
                }
            }
            CstModuleItem::GenerateForAssigns {
                loop_var: inner_var.clone(),
                upper_expr,
                assigns: out,
            }
        },
        CstModuleItem::GenerateForBody { loop_var: inner_var, upper_expr, body } => {
            let upper_expr = subst_expr_loop_var(upper_expr, loop_var, k);
            let body = if str_eq(inner_var.as_str(), loop_var) {
                clone_items(body)
            } else {
                subst_all_items(body, loop_var, k)
            };
            CstModuleItem::GenerateForBody { loop_var: inner_var.clone(), upper_expr, body }
        },
        CstModuleItem::GenerateIf { cond, then_body, else_body } => CstModuleItem::GenerateIf {
            cond: subst_expr_loop_var(cond, loop_var, k),
            then_body: subst_all_items(then_body, loop_var, k),
            else_body: subst_all_items(else_body, loop_var, k),
        },
        CstModuleItem::GenerateCase { scrutinee, arms, default } => {
            let mut out: Vec<(Expr, Vec<CstModuleItem>)> = Vec::new();
            let mut i: usize = 0;
            while i < arms.len()
                invariant
                    i <= arms@.len(),
                    out@.len() == i,
                    forall|j: int|
                        0 <= j < i ==> (#[trigger] out@[j]).0@ == subst_expr(
                            arms@[j].0@,
                            index_for(loop_var@, k),
                        ) && super::cst::items_view(out@[j].1@) == subst_items(
                            super::cst::items_view(arms@[j].1@),
                            loop_var@,
                            k,
                        ),
                    decreases_to!(item => arms@),
                decreases arms@.len() - i,
            {
                assert(decreases_to!(arms@ => arms@[i as int]));
                let arm = &arms[i];
                out.push(
                    (
                        subst_expr_loop_var(&arm.0, loop_var, k),
                        subst_all_items(&arm.1, loop_var, k),
                    ),
                );
                i = i + 1;
            }
            assert(super::cst::gen_arms_view(out@) =~= subst_gen_arms(
                super::cst::gen_arms_view(arms@),
                loop_var@,
                k,
            ));
            CstModuleItem::GenerateCase {
                scrutinee: subst_expr_loop_var(scrutinee, loop_var, k),
                arms: out,
                default: subst_all_items(default, loop_var, k),
            }
        },
        CstModuleItem::NetDecl { .. } => item.clone(),
        CstModuleItem::Always { .. } => item.clone(),
        CstModuleItem::Initial { .. } => item.clone(),
        CstModuleItem::LocalParam { .. } => item.clone(),
    }
}

} // verus!
