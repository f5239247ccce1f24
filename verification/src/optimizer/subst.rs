//! Substitution of identifiers, and measures over expressions.
use super::eval::Env;
use crate::ir::{ExprM, IrAssign, IrExpr};
use crate::text::str_eq;
use vstd::prelude::*;

verus! {

/// Replacement table from identifiers to expressions. A later entry for the same name
/// takes the place of an earlier one.
#[derive(Debug)]
pub struct Bindings {
    pub entries: Vec<(String, IrExpr)>,
}

/// Entries of a table, as models.
pub open spec fn entries_of(s: Seq<(String, IrExpr)>) -> Seq<(Seq<char>, ExprM)> {
    Seq::new(s.len(), |i: int| (s[i].0@, s[i].1@))
}

/// The map that a list of entries stands for: the last entry of a name counts.
pub open spec fn map_of(s: Seq<(Seq<char>, ExprM)>) -> Map<Seq<char>, ExprM>
    decreases s.len(),
{
    if s.len() == 0 {
        Map::empty()
    } else {
        map_of(s.drop_last()).insert(s.last().0, s.last().1)
    }
}

impl View for Bindings {
    type V = Map<Seq<char>, ExprM>;

    open spec fn view(&self) -> Map<Seq<char>, ExprM> {
        map_of(entries_of(self.entries@))
    }
}

impl Bindings {
    pub fn new() -> (r: Self)
        ensures
            r@ == Map::<Seq<char>, ExprM>::empty(),
            r.entries@.len() == 0,
    {
        Bindings { entries: Vec::new() }
    }

    pub fn insert(&mut self, name: String, value: IrExpr)
        ensures
            final(self)@ == old(self)@.insert(name@, value@),
            entries_of(final(self).entries@) == entries_of(old(self).entries@).push(
                (name@, value@),
            ),
    {
        self.entries.push((name, value));
        proof {
            let s = entries_of(self.entries@);
            assert(s.drop_last() =~= entries_of(old(self).entries@));
            assert(s =~= entries_of(old(self).entries@).push((name@, value@)));
        }
    }

    pub fn get(&self, name: &str) -> (r: Option<&IrExpr>)
        ensures
            match r {
                Some(e) => self@.contains_key(name@) && e@ == self@[name@],
                None => !self@.contains_key(name@),
            },
    {
        let ghost all = entries_of(self.entries@);
        let mut n: usize = self.entries.len();
        assert(all.take(n as int) == all);
        while n > 0
            invariant
                n <= self.entries@.len(),
                all == entries_of(self.entries@),
                map_of(all.take(n as int)).contains_key(name@) <==> map_of(all).contains_key(name@),
                map_of(all).contains_key(name@) ==> map_of(all.take(n as int))[name@] == map_of(
                    all,
                )[name@],
            decreases n,
        {
            proof {
                assert(all.take(n as int).drop_last() == all.take(n - 1));
                assert(all.take(n as int).last() == all[n - 1]);
            }
            let entry = &self.entries[n - 1];
            if str_eq(entry.0.as_str(), name) {
                return Some(&entry.1);
            }
            n = n - 1;
        }
        assert(all.take(0) =~= Seq::empty());
        None
    }
}

/// `e` with every identifier that `m` binds replaced.
pub open spec fn subst(e: ExprM, m: Map<Seq<char>, ExprM>) -> ExprM
    decreases e,
{
    match e {
        ExprM::Const(_) => e,
        ExprM::Ident(n) => if m.contains_key(n) {
            m[n]
        } else {
            e
        },
        ExprM::Binary { op, left, right } => crate::ir::bin_m(
            op,
            subst(*left, m),
            subst(*right, m),
        ),
        ExprM::Unary { op, operand } => crate::ir::un_m(op, subst(*operand, m)),
        ExprM::Signed(x) => ExprM::Signed(Box::new(subst(*x, m))),
        ExprM::Ternary { cond, then_expr, else_expr } => crate::ir::ternary_m(
            subst(*cond, m),
            subst(*then_expr, m),
            subst(*else_expr, m),
        ),
        ExprM::Concat(es) => ExprM::Concat(subst_all(es, m)),
        ExprM::PartSelect { value, msb, lsb } => ExprM::PartSelect {
            value: Box::new(subst(*value, m)),
            msb: Box::new(subst(*msb, m)),
            lsb: Box::new(subst(*lsb, m)),
        },
        ExprM::MemRead { stem, index } => ExprM::MemRead { stem, index: Box::new(subst(*index, m)) },
    }
}

pub open spec fn subst_all(es: Seq<ExprM>, m: Map<Seq<char>, ExprM>) -> Seq<ExprM>
    decreases es,
{
    if es.len() == 0 {
        Seq::empty()
    } else {
        subst_all(es.drop_last(), m).push(subst(es.last(), m))
    }
}

/// How many identifiers of `e` the map binds, counted with multiplicity.
pub open spec fn subst_count(e: ExprM, m: Map<Seq<char>, ExprM>) -> nat
    decreases e,
{
    match e {
        ExprM::Const(_) => 0,
        ExprM::Ident(n) => if m.contains_key(n) {
            1
        } else {
            0
        },
        ExprM::Binary { op, left, right } => subst_count(*left, m) + subst_count(*right, m),
        ExprM::Unary { op, operand } => subst_count(*operand, m),
        ExprM::Signed(x) => subst_count(*x, m),
        ExprM::Ternary { cond, then_expr, else_expr } => subst_count(*cond, m) + subst_count(
            *then_expr,
            m,
        ) + subst_count(*else_expr, m),
        ExprM::Concat(es) => subst_count_all(es, m),
        ExprM::PartSelect { value, msb, lsb } => subst_count(*value, m) + subst_count(*msb, m)
            + subst_count(*lsb, m),
        ExprM::MemRead { stem, index } => subst_count(*index, m),
    }
}

pub open spec fn subst_count_all(es: Seq<ExprM>, m: Map<Seq<char>, ExprM>) -> nat
    decreases es,
{
    if es.len() == 0 {
        0
    } else {
        subst_count_all(es.drop_last(), m) + subst_count(es.last(), m)
    }
}

/// The table without the name to skip.
pub open spec fn without(m: Map<Seq<char>, ExprM>, skip: Option<Seq<char>>) -> Map<
    Seq<char>,
    ExprM,
> {
    match skip {
        Some(s) => m.remove(s),
        None => m,
    }
}

pub open spec fn opt_str_view(s: Option<&str>) -> Option<Seq<char>> {
    match s {
        Some(x) => Some(x@),
        None => None,
    }
}

/// Replaces every bound identifier other than `skip`, and counts the replacements.
pub fn substitute(expr: &mut IrExpr, map: &Bindings, skip: Option<&str>) -> (count: usize)
    ensures
        final(expr)@ == subst(old(expr)@, without(map@, opt_str_view(skip))),
        count == super::rewrite::sat(
            subst_count(old(expr)@, without(map@, opt_str_view(skip))),
        ),
    decreases *old(expr),
{
    let mut replacement: Option<IrExpr> = None;
    let count: usize = match expr {
        IrExpr::Const(_) => 0,
        IrExpr::Ident(name) => {
            let skipped = match skip {
                Some(s) => str_eq(name.as_str(), s),
                None => false,
            };
            if skipped {
                0
            } else {
                match map.get(name.as_str()) {
                    Some(e) => {
                        replacement = Some(e.clone());
                        1
                    },
                    None => 0,
                }
            }
        },
        IrExpr::Binary { left, right, .. } => {
            let a = substitute(left, map, skip);
            let b = substitute(right, map, skip);
            a.saturating_add(b)
        },
        IrExpr::Unary { operand, .. } => substitute(operand, map, skip),
        IrExpr::Signed(operand) => substitute(operand, map, skip),
        IrExpr::Ternary { cond, then_expr, else_expr } => {
            let a = substitute(cond, map, skip);
            let b = substitute(then_expr, map, skip);
            let c = substitute(else_expr, map, skip);
            a.saturating_add(b).saturating_add(c)
        },
        IrExpr::Concat(exprs) => substitute_all(exprs, map, skip),
        IrExpr::PartSelect { value, msb, lsb } => {
            let a = substitute(value, map, skip);
            let b = substitute(msb, map, skip);
            let c = substitute(lsb, map, skip);
            a.saturating_add(b).saturating_add(c)
        },
        IrExpr::MemRead { index, .. } => substitute(index, map, skip),
    };
    if let Some(e) = replacement {
        *expr = e;
    }
    count
}

pub(crate) fn substitute_all(es: &mut Vec<IrExpr>, map: &Bindings, skip: Option<&str>) -> (count: usize)
    ensures
        crate::ir::exprs_view(final(es)@) == subst_all(
            crate::ir::exprs_view(old(es)@),
            without(map@, opt_str_view(skip)),
        ),
        count == super::rewrite::sat(
            subst_count_all(
                crate::ir::exprs_view(old(es)@),
                without(map@, opt_str_view(skip)),
            ),
        ),
    decreases *old(es),
{
    let mut i: usize = 0;
    let mut count: usize = 0;
    let n: usize = es.len();
    let ghost m = without(map@, opt_str_view(skip));
    let ghost before = es@;
    let ghost model = crate::ir::exprs_view(before);
    assert(crate::ir::exprs_view(es@).take(0) =~= subst_all(model.take(0), m));
    while i < n
        invariant
            i <= n,
            n == es@.len(),
            n == before.len(),
            before == old(es)@,
            m == without(map@, opt_str_view(skip)),
            model == crate::ir::exprs_view(before),
            crate::ir::exprs_view(es@).take(i as int) == subst_all(model.take(i as int), m),
            count == super::rewrite::sat(subst_count_all(model.take(i as int), m)),
            forall|j: int| i <= j < n ==> es@[j] == before[j],
        decreases n - i,
    {
        let ghost cur = crate::ir::exprs_view(es@);
        assert(decreases_to!(before => before[i as int]));
        let c = substitute(&mut es[i], map, skip);
        count = count.saturating_add(c);
        proof {
            assert(model.take(i + 1).drop_last() == model.take(i as int));
            assert(model.take(i + 1).last() == before[i as int]@);
            assert(crate::ir::exprs_view(es@).take(i + 1) =~= cur.take(i as int).push(
                es@[i as int]@,
            ));
        }
        i = i + 1;
    }
    assert(crate::ir::exprs_view(es@).take(i as int) == crate::ir::exprs_view(es@));
    assert(model.take(i as int) == model);
    count
}

/// The identifiers that a substitution can reach: all but memory stems.
pub open spec fn reads(e: ExprM) -> Set<Seq<char>>
    decreases e,
{
    match e {
        ExprM::Const(_) => Set::empty(),
        ExprM::Ident(n) => set![n],
        ExprM::Binary { op, left, right } => reads(*left).union(reads(*right)),
        ExprM::Unary { op, operand } => reads(*operand),
        ExprM::Signed(x) => reads(*x),
        ExprM::Ternary { cond, then_expr, else_expr } => reads(*cond).union(
            reads(*then_expr),
        ).union(reads(*else_expr)),
        ExprM::Concat(es) => reads_all(es),
        ExprM::PartSelect { value, msb, lsb } => reads(*value).union(reads(*msb)).union(
            reads(*lsb),
        ),
        ExprM::MemRead { stem, index } => reads(*index),
    }
}

pub open spec fn reads_all(es: Seq<ExprM>) -> Set<Seq<char>>
    decreases es,
{
    if es.len() == 0 {
        Set::empty()
    } else {
        reads_all(es.drop_last()).union(reads(es.last()))
    }
}

/// The names that an expression mentions: identifiers and memory stems.
pub open spec fn idents(e: ExprM) -> Set<Seq<char>>
    decreases e,
{
    match e {
        ExprM::Const(_) => Set::empty(),
        ExprM::Ident(n) => set![n],
        ExprM::Binary { op, left, right } => idents(*left).union(idents(*right)),
        ExprM::Unary { op, operand } => idents(*operand),
        ExprM::Signed(x) => idents(*x),
        ExprM::Ternary { cond, then_expr, else_expr } => idents(*cond).union(
            idents(*then_expr),
        ).union(idents(*else_expr)),
        ExprM::Concat(es) => idents_all(es),
        ExprM::PartSelect { value, msb, lsb } => idents(*value).union(idents(*msb)).union(
            idents(*lsb),
        ),
        ExprM::MemRead { stem, index } => idents(*index).insert(stem),
    }
}

pub open spec fn idents_all(es: Seq<ExprM>) -> Set<Seq<char>>
    decreases es,
{
    if es.len() == 0 {
        Set::empty()
    } else {
        idents_all(es.drop_last()).union(idents(es.last()))
    }
}

/// Whether `expr` mentions `name`.
pub fn expr_references(expr: &IrExpr, name: &str) -> (r: bool)
    ensures
        r == idents(expr@).contains(name@),
    decreases expr,
{
    match expr {
        IrExpr::Ident(n) => str_eq(n.as_str(), name),
        IrExpr::Const(_) => false,
        IrExpr::Binary { left, right, .. } => {
            expr_references(left, name) || expr_references(right, name)
        },
        IrExpr::Unary { operand, .. } => expr_references(operand, name),
        IrExpr::Signed(operand) => expr_references(operand, name),
        IrExpr::Ternary { cond, then_expr, else_expr } => {
            expr_references(cond, name) || expr_references(then_expr, name) || expr_references(
                else_expr,
                name,
            )
        },
        IrExpr::Concat(exprs) => {
            let ghost model = crate::ir::exprs_view(exprs@);
            let mut i: usize = 0;
            while i < exprs.len()
                invariant
                    i <= exprs@.len(),
                    model == crate::ir::exprs_view(exprs@),
                    !idents_all(model.take(i as int)).contains(name@),
                    decreases_to!(expr => exprs@),
                    expr@ == ExprM::Concat(model),
                decreases exprs@.len() - i,
            {
                assert(decreases_to!(exprs@ => exprs@[i as int]));
                assert(model.take(i + 1).drop_last() == model.take(i as int));
                assert(model.take(i + 1).last() == exprs@[i as int]@);
                if expr_references(&exprs[i], name) {
                    proof {
                        lemma_idents_prefix(model, i + 1);
                    }
                    return true;
                }
                i = i + 1;
            }
            assert(model.take(i as int) == model);
            false
        },
        IrExpr::PartSelect { value, msb, lsb } => {
            expr_references(value, name) || expr_references(msb, name) || expr_references(lsb, name)
        },
        IrExpr::MemRead { stem, index } => {
            str_eq(stem.as_str(), name) || expr_references(index, name)
        },
    }
}

proof fn lemma_idents_prefix(es: Seq<ExprM>, k: int)
    requires
        0 <= k <= es.len(),
    ensures
        idents_all(es.take(k)).subset_of(idents_all(es)),
    decreases es.len() - k,
{
    if k < es.len() {
        lemma_idents_prefix(es, k + 1);
        assert(es.take(k + 1).drop_last() == es.take(k));
    } else {
        assert(es.take(k) == es);
    }
}

/// Larger of two numbers.
pub open spec fn max2(a: nat, b: nat) -> nat {
    if a >= b {
        a
    } else {
        b
    }
}

/// Height of an expression tree.
pub open spec fn depth(e: ExprM) -> nat
    decreases e,
{
    match e {
        ExprM::Const(_) | ExprM::Ident(_) => 1,
        ExprM::Binary { op, left, right } => 1 + max2(depth(*left), depth(*right)),
        ExprM::Unary { op, operand } => 1 + depth(*operand),
        ExprM::Signed(x) => 1 + depth(*x),
        ExprM::Ternary { cond, then_expr, else_expr } => 1 + max2(
            max2(depth(*cond), depth(*then_expr)),
            depth(*else_expr),
        ),
        ExprM::Concat(es) => 1 + depth_all(es),
        ExprM::PartSelect { value, msb, lsb } => 1 + max2(
            max2(depth(*value), depth(*msb)),
            depth(*lsb),
        ),
        ExprM::MemRead { stem, index } => 1 + depth(*index),
    }
}

pub open spec fn depth_all(es: Seq<ExprM>) -> nat
    decreases es,
{
    if es.len() == 0 {
        0
    } else {
        max2(depth_all(es.drop_last()), depth(es.last()))
    }
}

fn larger(a: usize, b: usize) -> (r: usize)
    ensures
        r == if a >= b {
            a
        } else {
            b
        },
{
    if a >= b {
        a
    } else {
        b
    }
}

pub fn expr_depth(expr: &IrExpr) -> (r: usize)
    ensures
        r == super::rewrite::sat(depth(expr@)),
    decreases expr,
{
    let below: usize = match expr {
        IrExpr::Const(_) | IrExpr::Ident(_) => 0,
        IrExpr::Binary { left, right, .. } => larger(expr_depth(left), expr_depth(right)),
        IrExpr::Unary { operand, .. } => expr_depth(operand),
        IrExpr::Signed(operand) => expr_depth(operand),
        IrExpr::Ternary { cond, then_expr, else_expr } => larger(
            larger(expr_depth(cond), expr_depth(then_expr)),
            expr_depth(else_expr),
        ),
        IrExpr::Concat(exprs) => {
            let ghost model = crate::ir::exprs_view(exprs@);
            let mut best: usize = 0;
            let mut i: usize = 0;
            while i < exprs.len()
                invariant
                    i <= exprs@.len(),
                    model == crate::ir::exprs_view(exprs@),
                    best == super::rewrite::sat(depth_all(model.take(i as int))),
                    decreases_to!(expr => exprs@),
                decreases exprs@.len() - i,
            {
                assert(decreases_to!(exprs@ => exprs@[i as int]));
                assert(model.take(i + 1).drop_last() == model.take(i as int));
                assert(model.take(i + 1).last() == exprs@[i as int]@);
                best = larger(best, expr_depth(&exprs[i]));
                i = i + 1;
            }
            assert(model.take(i as int) == model);
            best
        },
        IrExpr::PartSelect { value, msb, lsb } => larger(
            larger(expr_depth(value), expr_depth(msb)),
            expr_depth(lsb),
        ),
        IrExpr::MemRead { index, .. } => expr_depth(index),
    };
    below.saturating_add(1)
}

/// Expressions small enough to be copied into their uses.
pub fn is_propagatable(expr: &IrExpr) -> (r: bool)
    ensures
        r == (depth(expr@) <= 3),
{
    expr_depth(expr) <= 3
}

/// Number of nodes of an expression.
pub open spec fn size(e: ExprM) -> nat
    decreases e,
{
    match e {
        ExprM::Const(_) | ExprM::Ident(_) => 1,
        ExprM::Binary { op, left, right } => 1 + size(*left) + size(*right),
        ExprM::Unary { op, operand } => 1 + size(*operand),
        ExprM::Signed(x) => 1 + size(*x),
        ExprM::Ternary { cond, then_expr, else_expr } => 1 + size(*cond) + size(*then_expr) + size(
            *else_expr,
        ),
        ExprM::Concat(es) => 1 + size_all(es),
        ExprM::PartSelect { value, msb, lsb } => 1 + size(*value) + size(*msb) + size(*lsb),
        ExprM::MemRead { stem, index } => 1 + size(*index),
    }
}

pub open spec fn size_all(es: Seq<ExprM>) -> nat
    decreases es,
{
    if es.len() == 0 {
        0
    } else {
        size_all(es.drop_last()) + size(es.last())
    }
}

pub fn expr_size(expr: &IrExpr) -> (r: usize)
    ensures
        r == super::rewrite::sat(size(expr@)),
    decreases expr,
{
    let below: usize = match expr {
        IrExpr::Const(_) | IrExpr::Ident(_) => 0,
        IrExpr::Binary { left, right, .. } => expr_size(left).saturating_add(expr_size(right)),
        IrExpr::Unary { operand, .. } => expr_size(operand),
        IrExpr::Signed(operand) => expr_size(operand),
        IrExpr::Ternary { cond, then_expr, else_expr } => expr_size(cond).saturating_add(
            expr_size(then_expr),
        ).saturating_add(expr_size(else_expr)),
        IrExpr::Concat(exprs) => {
            let ghost model = crate::ir::exprs_view(exprs@);
            let mut total: usize = 0;
            let mut i: usize = 0;
            while i < exprs.len()
                invariant
                    i <= exprs@.len(),
                    model == crate::ir::exprs_view(exprs@),
                    total == super::rewrite::sat(size_all(model.take(i as int))),
                    decreases_to!(expr => exprs@),
                decreases exprs@.len() - i,
            {
                assert(decreases_to!(exprs@ => exprs@[i as int]));
                assert(model.take(i + 1).drop_last() == model.take(i as int));
                assert(model.take(i + 1).last() == exprs@[i as int]@);
                total = total.saturating_add(expr_size(&exprs[i]));
                i = i + 1;
            }
            assert(model.take(i as int) == model);
            total
        },
        IrExpr::PartSelect { value, msb, lsb } => expr_size(value).saturating_add(
            expr_size(msb),
        ).saturating_add(expr_size(lsb)),
        IrExpr::MemRead { index, .. } => expr_size(index),
    };
    below.saturating_add(1)
}

/// Every binding of `m` has in `env` the value of the name it replaces.
pub open spec fn agrees(m: Map<Seq<char>, ExprM>, env: Env) -> bool {
    forall|n: Seq<char>| #[trigger]
        m.contains_key(n) ==> super::eval::eval(m[n], env) == (env.ident)(n)
}

/// Substituting names by expressions of the same value keeps the value.
pub proof fn law_substitution_keeps_value(e: ExprM, m: Map<Seq<char>, ExprM>, env: Env)
    requires
        agrees(m, env),
    ensures
        super::eval::eval(subst(e, m), env) == super::eval::eval(e, env),
    decreases e,
{
    match e {
        ExprM::Const(_) | ExprM::Ident(_) => {},
        ExprM::Binary { op, left, right } => {
            law_substitution_keeps_value(*left, m, env);
            law_substitution_keeps_value(*right, m, env);
        },
        ExprM::Unary { op, operand } => {
            law_substitution_keeps_value(*operand, m, env);
        },
        ExprM::Signed(x) => {
            law_substitution_keeps_value(*x, m, env);
        },
        ExprM::Ternary { cond, then_expr, else_expr } => {
            law_substitution_keeps_value(*cond, m, env);
            law_substitution_keeps_value(*then_expr, m, env);
            law_substitution_keeps_value(*else_expr, m, env);
        },
        ExprM::Concat(es) => {
            lemma_substitution_all(es, m, env);
        },
        ExprM::PartSelect { value, msb, lsb } => {
            law_substitution_keeps_value(*value, m, env);
            law_substitution_keeps_value(*msb, m, env);
            law_substitution_keeps_value(*lsb, m, env);
        },
        ExprM::MemRead { stem, index } => {
            law_substitution_keeps_value(*index, m, env);
        },
    }
}

proof fn lemma_substitution_all(es: Seq<ExprM>, m: Map<Seq<char>, ExprM>, env: Env)
    requires
        agrees(m, env),
    ensures
        super::eval::eval_all(subst_all(es, m), env) == super::eval::eval_all(es, env),
    decreases es,
{
    if es.len() > 0 {
        lemma_substitution_all(es.drop_last(), m, env);
        law_substitution_keeps_value(es.last(), m, env);
        let out = subst_all(es, m);
        assert(out.drop_last() == subst_all(es.drop_last(), m));
    }
}

/// A substitution that binds none of the identifiers an expression reads changes nothing
/// and counts nothing; one that binds some of them counts at least one.
pub proof fn law_substitution_count(e: ExprM, m: Map<Seq<char>, ExprM>)
    ensures
        subst_count(e, m) == 0 <==> reads(e).disjoint(m.dom()),
        subst_count(e, m) == 0 ==> subst(e, m) == e,
    decreases e,
{
    match e {
        ExprM::Const(_) => {},
        ExprM::Ident(n) => {
            assert(reads(e).contains(n));
        },
        ExprM::Binary { op, left, right } => {
            law_substitution_count(*left, m);
            law_substitution_count(*right, m);
            lemma_disjoint_union(reads(*left), reads(*right), m.dom());
        },
        ExprM::Unary { op, operand } => {
            law_substitution_count(*operand, m);
        },
        ExprM::Signed(x) => {
            law_substitution_count(*x, m);
        },
        ExprM::Ternary { cond, then_expr, else_expr } => {
            law_substitution_count(*cond, m);
            law_substitution_count(*then_expr, m);
            law_substitution_count(*else_expr, m);
            lemma_disjoint_union(reads(*cond), reads(*then_expr), m.dom());
            lemma_disjoint_union(
                reads(*cond).union(reads(*then_expr)),
                reads(*else_expr),
                m.dom(),
            );
        },
        ExprM::Concat(es) => {
            lemma_substitution_count_all(es, m);
        },
        ExprM::PartSelect { value, msb, lsb } => {
            law_substitution_count(*value, m);
            law_substitution_count(*msb, m);
            law_substitution_count(*lsb, m);
            lemma_disjoint_union(reads(*value), reads(*msb), m.dom());
            lemma_disjoint_union(reads(*value).union(reads(*msb)), reads(*lsb), m.dom());
        },
        ExprM::MemRead { stem, index } => {
            law_substitution_count(*index, m);
        },
    }
}

proof fn lemma_disjoint_union(a: Set<Seq<char>>, b: Set<Seq<char>>, d: Set<Seq<char>>)
    ensures
        a.union(b).disjoint(d) <==> a.disjoint(d) && b.disjoint(d),
{
    if a.union(b).disjoint(d) {
        assert forall|x: Seq<char>| a.contains(x) implies !d.contains(x) by {
            assert(a.union(b).contains(x));
        }
        assert forall|x: Seq<char>| b.contains(x) implies !d.contains(x) by {
            assert(a.union(b).contains(x));
        }
    }
}

proof fn lemma_substitution_count_all(es: Seq<ExprM>, m: Map<Seq<char>, ExprM>)
    ensures
        subst_count_all(es, m) == 0 <==> reads_all(es).disjoint(m.dom()),
        subst_count_all(es, m) == 0 ==> subst_all(es, m) == es,
    decreases es,
{
    if es.len() > 0 {
        lemma_substitution_count_all(es.drop_last(), m);
        law_substitution_count(es.last(), m);
        lemma_disjoint_union(reads_all(es.drop_last()), reads(es.last()), m.dom());
        if subst_count_all(es, m) == 0 {
            assert(subst_all(es, m) =~= es);
        }
    } else {
        assert(subst_all(es, m) =~= es);
    }
}

/// The names read after a substitution: those that were not bound, and those that the
/// replacements read.
pub proof fn lemma_reads_subst(e: ExprM, m: Map<Seq<char>, ExprM>, n: Seq<char>)
    ensures
        reads(subst(e, m)).contains(n) ==> (reads(e).contains(n) && !m.contains_key(n)) || exists|
            k: Seq<char>,
        | #[trigger]
            m.contains_key(k) && reads(e).contains(k) && reads(m[k]).contains(n),
    decreases e,
{
    match e {
        ExprM::Const(_) | ExprM::Ident(_) => {},
        ExprM::Binary { op, left, right } => {
            lemma_reads_subst(*left, m, n);
            lemma_reads_subst(*right, m, n);
        },
        ExprM::Unary { op, operand } => {
            lemma_reads_subst(*operand, m, n);
        },
        ExprM::Signed(x) => {
            lemma_reads_subst(*x, m, n);
        },
        ExprM::Ternary { cond, then_expr, else_expr } => {
            lemma_reads_subst(*cond, m, n);
            lemma_reads_subst(*then_expr, m, n);
            lemma_reads_subst(*else_expr, m, n);
        },
        ExprM::Concat(es) => {
            lemma_reads_subst_all(es, m, n);
        },
        ExprM::PartSelect { value, msb, lsb } => {
            lemma_reads_subst(*value, m, n);
            lemma_reads_subst(*msb, m, n);
            lemma_reads_subst(*lsb, m, n);
        },
        ExprM::MemRead { stem, index } => {
            lemma_reads_subst(*index, m, n);
        },
    }
}

proof fn lemma_reads_subst_all(es: Seq<ExprM>, m: Map<Seq<char>, ExprM>, n: Seq<char>)
    ensures
        reads_all(subst_all(es, m)).contains(n) ==> (reads_all(es).contains(n) && !m.contains_key(
            n,
        )) || exists|k: Seq<char>| #[trigger]
            m.contains_key(k) && reads_all(es).contains(k) && reads(m[k]).contains(n),
    decreases es,
{
    if es.len() > 0 {
        lemma_reads_subst_all(es.drop_last(), m, n);
        lemma_reads_subst(es.last(), m, n);
        let out = subst_all(es, m);
        assert(out.drop_last() == subst_all(es.drop_last(), m));
        assert(out.last() == subst(es.last(), m));
    }
}

/// The assigns with every right-hand side substituted, each skipping its own name where
/// `skip_own` is set.
pub open spec fn subst_assigns(
    s: Seq<crate::ir::AssignM>,
    m: Map<Seq<char>, ExprM>,
    skip_own: bool,
) -> Seq<crate::ir::AssignM> {
    Seq::new(
        s.len(),
        |i: int|
            crate::ir::AssignM {
                rhs: subst(
                    s[i].rhs,
                    if skip_own {
                        m.remove(s[i].lhs)
                    } else {
                        m
                    },
                ),
                ..s[i]
            },
    )
}

pub open spec fn subst_count_assigns(
    s: Seq<crate::ir::AssignM>,
    m: Map<Seq<char>, ExprM>,
    skip_own: bool,
) -> nat
    decreases s.len(),
{
    if s.len() == 0 {
        0
    } else {
        subst_count_assigns(s.drop_last(), m, skip_own) + subst_count(
            s.last().rhs,
            if skip_own {
                m.remove(s.last().lhs)
            } else {
                m
            },
        )
    }
}

/// Substitutes in every right-hand side.
pub fn substitute_assigns(assigns: &mut Vec<IrAssign>, map: &Bindings, skip_own: bool) -> (count:
    usize)
    ensures
        crate::ir::assigns_view(final(assigns)@) == subst_assigns(
            crate::ir::assigns_view(old(assigns)@),
            map@,
            skip_own,
        ),
        count == super::rewrite::sat(
            subst_count_assigns(crate::ir::assigns_view(old(assigns)@), map@, skip_own),
        ),
{
    let mut i: usize = 0;
    let mut count: usize = 0;
    let n: usize = assigns.len();
    let ghost model = crate::ir::assigns_view(assigns@);
    while i < n
        invariant
            i <= n,
            n == assigns@.len(),
            n == model.len(),
            count == super::rewrite::sat(
                subst_count_assigns(model.take(i as int), map@, skip_own),
            ),
            forall|j: int| i <= j < n ==> (#[trigger] assigns@[j])@ == model[j],
            forall|j: int|
                0 <= j < i ==> (#[trigger] assigns@[j])@ == subst_assigns(
                    model,
                    map@,
                    skip_own,
                )[j],
        decreases n - i,
    {
        assert(assigns@[i as int]@ == model[i as int]);
        let own = assigns[i].lhs.clone();
        let c = if skip_own {
            substitute(&mut assigns[i].rhs, map, Some(own.as_str()))
        } else {
            substitute(&mut assigns[i].rhs, map, None)
        };
        count = count.saturating_add(c);
        proof {
            assert(model.take(i + 1).drop_last() == model.take(i as int));
            assert(model.take(i + 1).last() == model[i as int]);
        }
        i = i + 1;
    }
    assert(crate::ir::assigns_view(assigns@) =~= subst_assigns(model, map@, skip_own));
    assert(model.take(i as int) == model);
    count
}

} // verus!
