//! Laws of the passes over a list of assigns.
//!
//! A solution of a list of assigns is an environment in which every name has the value of
//! its right-hand side. The passes keep the solutions, and a finished optimization is a
//! fixed point.
use super::eval::Env;
use super::rewrite::Rule;
use crate::ir::{AssignM, ExprM};
use vstd::prelude::*;

verus! {

/// Every assigned name has in `env` the value of its right-hand side.
pub open spec fn satisfies(s: Seq<AssignM>, env: Env) -> bool {
    forall|i: int|
        0 <= i < s.len() ==> (env.ident)((#[trigger] s[i]).lhs) == super::eval::eval(
            s[i].rhs,
            env,
        )
}

// ---------------------------------------------------------------------------------------
// Rewriting passes
// ---------------------------------------------------------------------------------------
/// Canonicalization keeps exactly the solutions of a list of assigns.
pub proof fn law_canonical_keeps_solutions(s: Seq<AssignM>, env: Env)
    ensures
        satisfies(super::canonical::canonical_assigns(s), env) <==> satisfies(s, env),
{
    let out = super::canonical::canonical_assigns(s);
    assert forall|i: int| 0 <= i < s.len() implies super::eval::eval(
        (#[trigger] out[i]).rhs,
        env,
    ) == super::eval::eval(s[i].rhs, env) && out[i].lhs == s[i].lhs by {
        super::canonical::law_canonical_keeps_value(s[i].rhs, env);
    }
    if satisfies(out, env) {
        assert forall|i: int| 0 <= i < s.len() implies (env.ident)((#[trigger] s[i]).lhs)
            == super::eval::eval(s[i].rhs, env) by {
            assert((env.ident)(out[i].lhs) == super::eval::eval(out[i].rhs, env));
        }
    }
}

/// A rewriting pass keeps exactly the solutions in which all its replacements are exact.
pub proof fn law_rewriting_keeps_solutions(rule: Rule, s: Seq<AssignM>, env: Env)
    requires
        forall|i: int|
            0 <= i < s.len() ==> super::rewrite::exact_rewriting(
                rule,
                (#[trigger] s[i]).rhs,
                env,
            ),
    ensures
        satisfies(super::rewrite::rewritten_assigns(rule, s), env) <==> satisfies(s, env),
{
    let out = super::rewrite::rewritten_assigns(rule, s);
    assert forall|i: int| 0 <= i < s.len() implies super::eval::eval(
        (#[trigger] out[i]).rhs,
        env,
    ) == super::eval::eval(s[i].rhs, env) && out[i].lhs == s[i].lhs by {
        assert(super::rewrite::exact_rewriting(rule, s[i].rhs, env));
        super::rewrite::law_traversal_keeps_value(rule, s[i].rhs, env);
    }
    if satisfies(out, env) {
        assert forall|i: int| 0 <= i < s.len() implies (env.ident)((#[trigger] s[i]).lhs)
            == super::eval::eval(s[i].rhs, env) by {
            assert((env.ident)(out[i].lhs) == super::eval::eval(out[i].rhs, env));
        }
    }
}

/// Peephole combining and code sinking are exact on every input.
pub proof fn law_peephole_and_sink_are_exact(rule: Rule, e: ExprM, env: Env)
    requires
        rule != Rule::Algebraic,
    ensures
        super::rewrite::exact_rewriting(rule, e, env),
    decreases e,
{
    match e {
        ExprM::Const(_) | ExprM::Ident(_) => {},
        ExprM::Binary { op, left, right } => {
            law_peephole_and_sink_are_exact(rule, *left, env);
            law_peephole_and_sink_are_exact(rule, *right, env);
        },
        ExprM::Unary { op, operand } => {
            law_peephole_and_sink_are_exact(rule, *operand, env);
        },
        ExprM::Signed(x) => {
            law_peephole_and_sink_are_exact(rule, *x, env);
        },
        ExprM::Ternary { cond, then_expr, else_expr } => {
            law_peephole_and_sink_are_exact(rule, *cond, env);
            law_peephole_and_sink_are_exact(rule, *then_expr, env);
            law_peephole_and_sink_are_exact(rule, *else_expr, env);
        },
        ExprM::Concat(es) => {
            assert forall|i: int| 0 <= i < es.len() implies super::rewrite::exact_rewriting(
                rule,
                #[trigger] es[i],
                env,
            ) by {
                law_peephole_and_sink_are_exact(rule, es[i], env);
            }
        },
        ExprM::PartSelect { value, msb, lsb } => {
            law_peephole_and_sink_are_exact(rule, *value, env);
            law_peephole_and_sink_are_exact(rule, *msb, env);
            law_peephole_and_sink_are_exact(rule, *lsb, env);
        },
        ExprM::MemRead { stem, index } => {
            law_peephole_and_sink_are_exact(rule, *index, env);
        },
    }
}

// ---------------------------------------------------------------------------------------
// Substituting passes
// ---------------------------------------------------------------------------------------
/// Substitution by a map that agrees with the environment keeps exactly the solutions.
proof fn lemma_subst_solutions(
    s: Seq<AssignM>,
    m: Map<Seq<char>, ExprM>,
    skip_own: bool,
    env: Env,
)
    requires
        super::subst::agrees(m, env),
    ensures
        satisfies(super::subst::subst_assigns(s, m, skip_own), env) <==> satisfies(s, env),
{
    let out = super::subst::subst_assigns(s, m, skip_own);
    assert forall|i: int| 0 <= i < s.len() implies super::eval::eval(
        (#[trigger] out[i]).rhs,
        env,
    ) == super::eval::eval(s[i].rhs, env) && out[i].lhs == s[i].lhs by {
        let mi = if skip_own {
            m.remove(s[i].lhs)
        } else {
            m
        };
        assert(super::subst::agrees(mi, env)) by {
            assert forall|n: Seq<char>| #[trigger] mi.contains_key(n) implies super::eval::eval(
                mi[n],
                env,
            ) == (env.ident)(n) by {
                assert(m.contains_key(n));
            }
        }
        super::subst::law_substitution_keeps_value(s[i].rhs, mi, env);
    }
    if satisfies(out, env) {
        assert forall|i: int| 0 <= i < s.len() implies (env.ident)((#[trigger] s[i]).lhs)
            == super::eval::eval(s[i].rhs, env) by {
            assert((env.ident)(out[i].lhs) == super::eval::eval(out[i].rhs, env));
        }
    }
}

/// Every binding of the constant map is an assign of that constant.
proof fn lemma_const_map(s: Seq<AssignM>, n: Seq<char>)
    requires
        super::passes::const_map(s).contains_key(n),
    ensures
        exists|i: int|
            0 <= i < s.len() && (#[trigger] s[i]).lhs == n && s[i].rhs
                == super::passes::const_map(s)[n] && s[i].rhs is Const,
    decreases s.len(),
{
    if s.len() > 0 {
        let rest = s.drop_last();
        let a = s.last();
        if a.rhs is Const {
            let prev = super::passes::const_entries(rest);
            assert(super::passes::const_entries(s).drop_last() == prev);
            if a.lhs == n {
                assert(s[s.len() - 1].lhs == n);
            } else {
                lemma_const_map(rest, n);
                let i = choose|i: int|
                    0 <= i < rest.len() && (#[trigger] rest[i]).lhs == n && rest[i].rhs
                        == super::passes::const_map(rest)[n] && rest[i].rhs is Const;
                assert(s[i] == rest[i]);
            }
        } else {
            lemma_const_map(rest, n);
            let i = choose|i: int|
                0 <= i < rest.len() && (#[trigger] rest[i]).lhs == n && rest[i].rhs
                    == super::passes::const_map(rest)[n] && rest[i].rhs is Const;
            assert(s[i] == rest[i]);
        }
    }
}

/// Constant propagation keeps exactly the solutions of a list of assigns.
pub proof fn law_constant_propagation_keeps_solutions(s: Seq<AssignM>, env: Env)
    ensures
        satisfies(
            super::subst::subst_assigns(s, super::passes::const_map(s), false),
            env,
        ) <==> satisfies(s, env),
{
    let m = super::passes::const_map(s);
    let out = super::subst::subst_assigns(s, m, false);
    if satisfies(s, env) || satisfies(out, env) {
        assert forall|n: Seq<char>| #[trigger] m.contains_key(n) implies super::eval::eval(
            m[n],
            env,
        ) == (env.ident)(n) by {
            lemma_const_map(s, n);
            let i = choose|i: int|
                0 <= i < s.len() && (#[trigger] s[i]).lhs == n && s[i].rhs == m[n]
                    && s[i].rhs is Const;
            assert(out[i].rhs == s[i].rhs && out[i].lhs == s[i].lhs);
        }
        lemma_subst_solutions(s, m, false, env);
    }
}

/// What a scan has recorded are assigns of the list, and a renamed name repeats the
/// computation of its new name.
proof fn lemma_cse_scan(s: Seq<AssignM>)
    ensures
        forall|k: int|
            0 <= k < super::passes::cse_scan(s).seen.len() ==> exists|i: int|
                0 <= i < s.len() && (#[trigger] s[i]).rhs == (
                #[trigger] super::passes::cse_scan(s).seen[k]).0 && s[i].lhs
                    == super::passes::cse_scan(s).seen[k].1,
        forall|k: int|
            0 <= k < super::passes::cse_scan(s).rename.len() ==> repeats(
                s,
                #[trigger] super::passes::cse_scan(s).rename[k],
            ),
    decreases s.len(),
{
    if s.len() > 0 {
        let rest = s.drop_last();
        lemma_cse_scan(rest);
        let prev = super::passes::cse_scan(rest);
        let now = super::passes::cse_scan(s);
        let a = s.last();
        assert forall|k: int| 0 <= k < now.seen.len() implies exists|i: int|
            0 <= i < s.len() && (#[trigger] s[i]).rhs == (#[trigger] now.seen[k]).0 && s[i].lhs
                == now.seen[k].1 by {
            if k < prev.seen.len() {
                let i = choose|i: int|
                    0 <= i < rest.len() && (#[trigger] rest[i]).rhs == (
                    #[trigger] prev.seen[k]).0 && rest[i].lhs == prev.seen[k].1;
                assert(s[i] == rest[i]);
            } else {
                assert(s[s.len() - 1].rhs == now.seen[k].0);
            }
        }
        assert forall|k: int| 0 <= k < now.rename.len() implies repeats(
            s,
            #[trigger] now.rename[k],
        ) by {
            if k < prev.rename.len() {
                assert(repeats(rest, prev.rename[k]));
                let (i, j) = choose|i: int, j: int|
                    0 <= i < rest.len() && 0 <= j < rest.len() && (#[trigger] rest[i]).rhs == (
                    #[trigger] rest[j]).rhs && ExprM::Ident(rest[i].lhs) == prev.rename[k].1
                        && rest[j].lhs == prev.rename[k].0;
                assert(s[i] == rest[i] && s[j] == rest[j]);
            } else {
                lemma_first_match(prev.seen, a.rhs, a.lhs);
                let q = choose|q: int|
                    0 <= q < prev.seen.len() && (#[trigger] prev.seen[q]).0 == a.rhs && Some(
                        prev.seen[q].1,
                    ) == super::passes::first_match(prev.seen, a.rhs, a.lhs);
                let i = choose|i: int|
                    0 <= i < rest.len() && (#[trigger] rest[i]).rhs == (
                    #[trigger] prev.seen[q]).0 && rest[i].lhs == prev.seen[q].1;
                assert(s[i] == rest[i]);
                assert(s[s.len() - 1] == a);
            }
        }
    }
}

/// The entry renames a name to another one that is assigned the same expression.
spec fn repeats(s: Seq<AssignM>, entry: (Seq<char>, ExprM)) -> bool {
    exists|i: int, j: int|
        0 <= i < s.len() && 0 <= j < s.len() && (#[trigger] s[i]).rhs == (#[trigger] s[j]).rhs
            && ExprM::Ident(s[i].lhs) == entry.1 && s[j].lhs == entry.0
}

proof fn lemma_first_match(seen: Seq<(ExprM, Seq<char>)>, rhs: ExprM, lhs: Seq<char>)
    requires
        super::passes::first_match(seen, rhs, lhs) is Some,
    ensures
        exists|q: int|
            0 <= q < seen.len() && (#[trigger] seen[q]).0 == rhs && Some(seen[q].1)
                == super::passes::first_match(seen, rhs, lhs),
    decreases seen.len(),
{
    if seen.len() > 0 {
        let rest = seen.drop_last();
        if super::passes::first_match(rest, rhs, lhs) is Some {
            lemma_first_match(rest, rhs, lhs);
            let q = choose|q: int|
                0 <= q < rest.len() && (#[trigger] rest[q]).0 == rhs && Some(rest[q].1)
                    == super::passes::first_match(rest, rhs, lhs);
            assert(seen[q] == rest[q]);
        } else {
            assert(seen[seen.len() - 1].0 == rhs);
        }
    }
}

/// Every binding of a table is one of its entries.
proof fn lemma_map_of_entry(list: Seq<(Seq<char>, ExprM)>, n: Seq<char>)
    requires
        super::subst::map_of(list).contains_key(n),
    ensures
        exists|k: int|
            0 <= k < list.len() && (#[trigger] list[k]).0 == n && list[k].1
                == super::subst::map_of(list)[n],
    decreases list.len(),
{
    if list.len() > 0 {
        if list.last().0 == n {
            assert(list[list.len() - 1].0 == n);
        } else {
            let rest = list.drop_last();
            lemma_map_of_entry(rest, n);
            let k = choose|k: int|
                0 <= k < rest.len() && (#[trigger] rest[k]).0 == n && rest[k].1
                    == super::subst::map_of(rest)[n];
            assert(list[k] == rest[k]);
        }
    }
}

/// Common-subexpression elimination keeps exactly the solutions of a list of assigns.
pub proof fn law_cse_keeps_solutions(s: Seq<AssignM>, env: Env)
    ensures
        satisfies(
            super::subst::subst_assigns(
                s,
                super::subst::map_of(super::passes::cse_scan(s).rename),
                false,
            ),
            env,
        ) <==> satisfies(s, env),
{
    let list = super::passes::cse_scan(s).rename;
    let m = super::subst::map_of(list);
    let out = super::subst::subst_assigns(s, m, false);
    if satisfies(s, env) || satisfies(out, env) {
        lemma_cse_scan(s);
        assert forall|n: Seq<char>| #[trigger] m.contains_key(n) implies super::eval::eval(
            m[n],
            env,
        ) == (env.ident)(n) by {
            lemma_map_of_entry(list, n);
            let k = choose|k: int|
                0 <= k < list.len() && (#[trigger] list[k]).0 == n && list[k].1 == m[n];
            assert(repeats(s, list[k]));
            let (i, j) = choose|i: int, j: int|
                0 <= i < s.len() && 0 <= j < s.len() && (#[trigger] s[i]).rhs == (
                #[trigger] s[j]).rhs && ExprM::Ident(s[i].lhs) == list[k].1 && s[j].lhs
                    == list[k].0;
            assert(out[i].rhs == out[j].rhs && out[i].lhs == s[i].lhs && out[j].lhs == s[j].lhs);
        }
        lemma_subst_solutions(s, m, false, env);
    }
}

// ---------------------------------------------------------------------------------------
// Copy propagation
// ---------------------------------------------------------------------------------------
/// Every entry of the table has in `env` the value of its name.
spec fn list_agrees(list: Seq<(Seq<char>, ExprM)>, env: Env) -> bool {
    forall|i: int|
        0 <= i < list.len() ==> super::eval::eval((#[trigger] list[i]).1, env) == (env.ident)(
            list[i].0,
        )
}

proof fn lemma_list_map_agrees(list: Seq<(Seq<char>, ExprM)>, env: Env)
    requires
        list_agrees(list, env),
    ensures
        super::subst::agrees(super::subst::map_of(list), env),
{
    let m = super::subst::map_of(list);
    assert forall|n: Seq<char>| #[trigger] m.contains_key(n) implies super::eval::eval(m[n], env)
        == (env.ident)(n) by {
        lemma_map_of_entry(list, n);
    }
}

/// All entries but `i` agree with `env`; then entry `i` agrees before a resolving step if
/// and only if it agrees after it.
proof fn lemma_step_agrees(list: Seq<(Seq<char>, ExprM)>, i: int, env: Env)
    requires
        0 <= i < list.len(),
        super::passes::distinct_keys(list),
        forall|j: int|
            0 <= j < list.len() && j != i ==> super::eval::eval((#[trigger] list[j]).1, env) == (
            env.ident)(list[j].0),
    ensures
        super::eval::eval(super::passes::resolve_step(list, i)[i].1, env) == super::eval::eval(
            list[i].1,
            env,
        ),
{
    let m = super::subst::map_of(list).remove(list[i].0);
    super::passes::lemma_map_entries(list);
    assert(super::subst::agrees(m, env)) by {
        assert forall|n: Seq<char>| #[trigger] m.contains_key(n) implies super::eval::eval(
            m[n],
            env,
        ) == (env.ident)(n) by {
            assert(super::subst::map_of(list).contains_key(n));
            let j = choose|j: int| 0 <= j < list.len() && (#[trigger] list[j]).0 == n;
            assert(super::subst::map_of(list)[list[j].0] == list[j].1);
        }
    }
    super::subst::law_substitution_keeps_value(list[i].1, m, env);
}

proof fn lemma_step_keeps_keys(list: Seq<(Seq<char>, ExprM)>, i: int)
    requires
        0 <= i < list.len(),
        super::passes::distinct_keys(list),
    ensures
        super::passes::distinct_keys(super::passes::resolve_step(list, i)),
        super::passes::resolve_step(list, i).len() == list.len(),
        forall|j: int|
            0 <= j < list.len() ==> (#[trigger] super::passes::resolve_step(list, i)[j]).0
                == list[j].0,
{
    let next = super::passes::resolve_step(list, i);
    assert forall|a: int, b: int| 0 <= a < b < next.len() implies next[a].0 != next[b].0 by {
        assert(next[a].0 == list[a].0);
        assert(next[b].0 == list[b].0);
    }
}

proof fn lemma_resolve_from_agrees(list: Seq<(Seq<char>, ExprM)>, i: int, env: Env)
    requires
        0 <= i,
        super::passes::distinct_keys(list),
    ensures
        list_agrees(list, env) <==> list_agrees(super::passes::resolve_from(list, i), env),
        super::passes::distinct_keys(super::passes::resolve_from(list, i)),
        super::passes::resolve_from(list, i).len() == list.len(),
        forall|j: int|
            0 <= j < list.len() ==> (#[trigger] super::passes::resolve_from(list, i)[j]).0
                == list[j].0,
    decreases list.len() - i,
{
    if i < list.len() {
        let next = super::passes::resolve_step(list, i);
        lemma_step_keeps_keys(list, i);
        lemma_resolve_from_agrees(next, i + 1, env);
        if list_agrees(list, env) {
            lemma_step_agrees(list, i, env);
            assert forall|j: int| 0 <= j < next.len() implies super::eval::eval(
                (#[trigger] next[j]).1,
                env,
            ) == (env.ident)(next[j].0) by {
                assert(super::eval::eval(list[j].1, env) == (env.ident)(list[j].0));
            }
        }
        if list_agrees(next, env) {
            assert forall|j: int| 0 <= j < list.len() && j != i implies super::eval::eval(
                (#[trigger] list[j]).1,
                env,
            ) == (env.ident)(list[j].0) by {
                assert(next[j] == list[j]);
            }
            lemma_step_agrees(list, i, env);
            assert forall|j: int| 0 <= j < list.len() implies super::eval::eval(
                (#[trigger] list[j]).1,
                env,
            ) == (env.ident)(list[j].0) by {
                assert(super::eval::eval(next[j].1, env) == (env.ident)(next[j].0));
            }
        }
    }
}

proof fn lemma_rounds_agree(list: Seq<(Seq<char>, ExprM)>, n: nat, env: Env)
    requires
        super::passes::distinct_keys(list),
    ensures
        list_agrees(list, env) <==> list_agrees(super::passes::resolve_rounds(list, n), env),
        super::passes::distinct_keys(super::passes::resolve_rounds(list, n)),
        super::passes::resolve_rounds(list, n).len() == list.len(),
        forall|j: int|
            0 <= j < list.len() ==> (#[trigger] super::passes::resolve_rounds(list, n)[j]).0
                == list[j].0,
    decreases n,
{
    if n > 0 {
        let next = super::passes::resolve_from(list, 0);
        lemma_resolve_from_agrees(list, 0, env);
        lemma_rounds_agree(next, (n - 1) as nat, env);
    }
}

/// Every solution of a list of assigns is a solution after copy propagation.
pub proof fn law_copy_propagation_keeps_each_solution(s: Seq<AssignM>, env: Env)
    requires
        satisfies(s, env),
    ensures
        satisfies(
            super::subst::subst_assigns(
                s,
                super::subst::map_of(super::passes::copies(s)),
                true,
            ),
            env,
        ),
{
    let list = super::passes::copy_entries(s, s);
    assert(s.take(s.len() as int) == s);
    super::passes::lemma_copy_entries(s, s.len() as int);
    assert forall|i: int| 0 <= i < list.len() implies super::eval::eval(
        (#[trigger] list[i]).1,
        env,
    ) == (env.ident)(list[i].0) by {
        let j = choose|j: int|
            0 <= j < s.len() && #[trigger] s[j].lhs == list[i].0 && s[j].rhs == list[i].1
                && super::passes::copyable(s, s[j]);
        assert((env.ident)(s[j].lhs) == super::eval::eval(s[j].rhs, env));
    }
    lemma_rounds_agree(list, list.len(), env);
    lemma_list_map_agrees(super::passes::copies(s), env);
    lemma_subst_solutions(s, super::subst::map_of(super::passes::copies(s)), true, env);
}

/// `rank` orders the keys of the table below its length so that every entry reads only
/// keys of smaller rank.
pub open spec fn ranked(
    list: Seq<(Seq<char>, ExprM)>,
    rank: spec_fn(Seq<char>) -> nat,
) -> bool {
    &&& forall|i: int| 0 <= i < list.len() ==> rank((#[trigger] list[i]).0) < list.len()
    &&& forall|i: int, n: Seq<char>|
        0 <= i < list.len() && #[trigger] super::subst::reads(list[i].1).contains(n)
            && is_key(list, n) ==> rank(n) < rank(list[i].0)
}

/// `n` is a key of the table.
pub open spec fn is_key(list: Seq<(Seq<char>, ExprM)>, n: Seq<char>) -> bool {
    exists|j: int| 0 <= j < list.len() && (#[trigger] list[j]).0 == n
}

/// The copies of a list of assigns do not depend on each other in a circle.
pub open spec fn acyclic_copies(s: Seq<AssignM>) -> bool {
    exists|rank: spec_fn(Seq<char>) -> nat| ranked(super::passes::copy_entries(s, s), rank)
}

/// Entry `i` reads no key.
pub open spec fn entry_resolved(list: Seq<(Seq<char>, ExprM)>, i: int) -> bool {
    forall|n: Seq<char>| #[trigger]
        super::subst::reads(list[i].1).contains(n) ==> !is_key(list, n)
}

spec fn resolved_up_to(
    list: Seq<(Seq<char>, ExprM)>,
    rank: spec_fn(Seq<char>) -> nat,
    r: nat,
) -> bool {
    forall|i: int|
        0 <= i < list.len() && rank((#[trigger] list[i]).0) <= r ==> entry_resolved(list, i)
}

proof fn lemma_same_keys(
    a: Seq<(Seq<char>, ExprM)>,
    b: Seq<(Seq<char>, ExprM)>,
    n: Seq<char>,
)
    requires
        a.len() == b.len(),
        forall|j: int| 0 <= j < a.len() ==> (#[trigger] a[j]).0 == b[j].0,
    ensures
        is_key(a, n) <==> is_key(b, n),
{
    if is_key(a, n) {
        let j = choose|j: int| 0 <= j < a.len() && (#[trigger] a[j]).0 == n;
        assert(b[j].0 == n);
    }
    if is_key(b, n) {
        let j = choose|j: int| 0 <= j < b.len() && (#[trigger] b[j]).0 == n;
        assert(a[j].0 == n);
    }
}

/// One resolving step keeps the ranking and the resolved entries, and resolves an entry
/// of rank at most `r + 1` where all of rank at most `r` are resolved.
proof fn lemma_step_resolves(
    list: Seq<(Seq<char>, ExprM)>,
    i: int,
    rank: spec_fn(Seq<char>) -> nat,
    r: nat,
)
    requires
        0 <= i < list.len(),
        super::passes::distinct_keys(list),
        ranked(list, rank),
        resolved_up_to(list, rank, r),
    ensures
        ranked(super::passes::resolve_step(list, i), rank),
        resolved_up_to(super::passes::resolve_step(list, i), rank, r),
        rank(list[i].0) <= r + 1 ==> entry_resolved(super::passes::resolve_step(list, i), i),
        forall|j: int|
            0 <= j < list.len() && j != i && entry_resolved(list, j) ==> #[trigger] entry_resolved(
                super::passes::resolve_step(list, i),
                j,
            ),
{
    let next = super::passes::resolve_step(list, i);
    let m = super::subst::map_of(list).remove(list[i].0);
    lemma_step_keeps_keys(list, i);
    super::passes::lemma_map_entries(list);
    assert forall|n: Seq<char>| is_key(list, n) <==> #[trigger] is_key(next, n) by {
        lemma_same_keys(list, next, n);
    }
    assert forall|n: Seq<char>| #[trigger]
        super::subst::reads(next[i].1).contains(n) && is_key(next, n) implies rank(n) < rank(
        list[i].0,
    ) && exists|j: int|
        0 <= j < list.len() && j != i && super::subst::reads((#[trigger] list[j]).1).contains(n)
            && super::subst::reads(list[i].1).contains(list[j].0) by {
        super::subst::lemma_reads_subst(list[i].1, m, n);
        assert(is_key(list, n));
        if super::subst::reads(list[i].1).contains(n) && !m.contains_key(n) {
            let j = choose|j: int| 0 <= j < list.len() && (#[trigger] list[j]).0 == n;
            assert(super::subst::map_of(list).contains_key(list[j].0));
            assert(n == list[i].0);
            assert(rank(n) < rank(list[i].0));
            assert(false);
        }
        let k = choose|k: Seq<char>| #[trigger]
            m.contains_key(k) && super::subst::reads(list[i].1).contains(k) && super::subst::reads(
                m[k],
            ).contains(n);
        assert(super::subst::map_of(list).contains_key(k));
        let j = choose|j: int| 0 <= j < list.len() && (#[trigger] list[j]).0 == k;
        assert(super::subst::map_of(list)[list[j].0] == list[j].1);
        assert(is_key(list, k));
        assert(rank(k) < rank(list[i].0));
        assert(super::subst::reads(list[j].1).contains(n));
        assert(rank(n) < rank(k));
    }
    assert forall|a: int, n: Seq<char>|
        0 <= a < next.len() && #[trigger] super::subst::reads(next[a].1).contains(n) && is_key(
            next,
            n,
        ) implies rank(n) < rank(next[a].0) by {
        if a != i {
            assert(next[a] == list[a]);
            assert(super::subst::reads(list[a].1).contains(n));
        }
    }
    assert forall|a: int| 0 <= a < next.len() implies rank((#[trigger] next[a]).0)
        < next.len() by {
        assert(next[a].0 == list[a].0);
        assert(rank(list[a].0) < list.len());
    }
    assert forall|j: int|
        0 <= j < list.len() && j != i && entry_resolved(list, j) implies #[trigger] entry_resolved(
        next,
        j,
    ) by {
        assert(next[j] == list[j]);
        assert forall|n: Seq<char>| #[trigger]
            super::subst::reads(next[j].1).contains(n) implies !is_key(next, n) by {
            assert(super::subst::reads(list[j].1).contains(n));
        }
    }
    if rank(list[i].0) <= r + 1 {
        assert forall|n: Seq<char>| #[trigger]
            super::subst::reads(next[i].1).contains(n) implies !is_key(next, n) by {
            if is_key(next, n) {
                let j = choose|j: int|
                    0 <= j < list.len() && j != i && super::subst::reads(
                        (#[trigger] list[j]).1,
                    ).contains(n) && super::subst::reads(list[i].1).contains(list[j].0);
                assert(is_key(list, list[j].0));
                assert(rank(list[j].0) < rank(list[i].0));
                assert(entry_resolved(list, j));
                assert(is_key(list, n));
            }
        }
    }
    assert forall|a: int|
        0 <= a < next.len() && rank((#[trigger] next[a]).0) <= r implies entry_resolved(
        next,
        a,
    ) by {
        assert(next[a].0 == list[a].0);
        if a != i {
            assert(entry_resolved(list, a));
        }
    }
}

proof fn lemma_round_resolves(
    list: Seq<(Seq<char>, ExprM)>,
    i: int,
    rank: spec_fn(Seq<char>) -> nat,
    r: nat,
)
    requires
        0 <= i <= list.len(),
        super::passes::distinct_keys(list),
        ranked(list, rank),
        resolved_up_to(list, rank, r),
        forall|j: int|
            0 <= j < i && rank((#[trigger] list[j]).0) <= r + 1 ==> entry_resolved(list, j),
    ensures
        ranked(super::passes::resolve_from(list, i), rank),
        resolved_up_to(super::passes::resolve_from(list, i), rank, r + 1),
        super::passes::distinct_keys(super::passes::resolve_from(list, i)),
        super::passes::resolve_from(list, i).len() == list.len(),
        forall|j: int|
            0 <= j < list.len() ==> (#[trigger] super::passes::resolve_from(list, i)[j]).0
                == list[j].0,
    decreases list.len() - i,
{
    if i < list.len() {
        let next = super::passes::resolve_step(list, i);
        lemma_step_keeps_keys(list, i);
        lemma_step_resolves(list, i, rank, r);
        assert forall|j: int|
            0 <= j < i + 1 && rank((#[trigger] next[j]).0) <= r + 1 implies entry_resolved(
            next,
            j,
        ) by {
            assert(next[j].0 == list[j].0);
            if j < i {
                assert(entry_resolved(list, j));
            }
        }
        lemma_round_resolves(next, i + 1, rank, r);
    }
}

proof fn lemma_rounds_resolve(
    list: Seq<(Seq<char>, ExprM)>,
    n: nat,
    rank: spec_fn(Seq<char>) -> nat,
    r: nat,
)
    requires
        super::passes::distinct_keys(list),
        ranked(list, rank),
        resolved_up_to(list, rank, r),
    ensures
        resolved_up_to(super::passes::resolve_rounds(list, n), rank, r + n),
        super::passes::resolve_rounds(list, n).len() == list.len(),
        forall|j: int|
            0 <= j < list.len() ==> (#[trigger] super::passes::resolve_rounds(list, n)[j]).0
                == list[j].0,
    decreases n,
{
    if n > 0 {
        lemma_round_resolves(list, 0, rank, r);
        lemma_rounds_resolve(super::passes::resolve_from(list, 0), (n - 1) as nat, rank, r + 1);
    }
}

/// Chains of copies are resolved completely: unless the copies go round in a circle, no
/// replacement reads a name that is itself replaced.
pub proof fn law_copy_chains_resolve(s: Seq<AssignM>)
    requires
        acyclic_copies(s),
    ensures
        forall|i: int|
            0 <= i < super::passes::copies(s).len() ==> #[trigger] entry_resolved(
                super::passes::copies(s),
                i,
            ),
{
    let list = super::passes::copy_entries(s, s);
    let rank = choose|rank: spec_fn(Seq<char>) -> nat| ranked(list, rank);
    assert(s.take(s.len() as int) == s);
    super::passes::lemma_copy_entries(s, s.len() as int);
    assert(resolved_up_to(list, rank, 0));
    lemma_rounds_resolve(list, list.len(), rank, 0);
    let out = super::passes::copies(s);
    assert forall|i: int| 0 <= i < out.len() implies #[trigger] entry_resolved(out, i) by {
        assert(out[i].0 == list[i].0);
        assert(rank(list[i].0) < list.len());
    }
}

/// The environment in which the bound names have the values of their bindings.
pub open spec fn overridden(env: Env, m: Map<Seq<char>, ExprM>) -> Env {
    Env {
        ident: |n: Seq<char>|
            if m.contains_key(n) {
                super::eval::eval(m[n], env)
            } else {
                (env.ident)(n)
            },
        ..env
    }
}

/// Evaluating after a substitution is evaluating with the bound names overridden.
pub proof fn law_substitution_is_override(e: ExprM, m: Map<Seq<char>, ExprM>, env: Env)
    ensures
        super::eval::eval(super::subst::subst(e, m), env) == super::eval::eval(
            e,
            overridden(env, m),
        ),
    decreases e,
{
    match e {
        ExprM::Const(_) | ExprM::Ident(_) => {},
        ExprM::Binary { op, left, right } => {
            law_substitution_is_override(*left, m, env);
            law_substitution_is_override(*right, m, env);
        },
        ExprM::Unary { op, operand } => {
            law_substitution_is_override(*operand, m, env);
        },
        ExprM::Signed(x) => {
            law_substitution_is_override(*x, m, env);
        },
        ExprM::Ternary { cond, then_expr, else_expr } => {
            law_substitution_is_override(*cond, m, env);
            law_substitution_is_override(*then_expr, m, env);
            law_substitution_is_override(*else_expr, m, env);
        },
        ExprM::Concat(es) => {
            lemma_substitution_override_all(es, m, env);
        },
        ExprM::PartSelect { value, msb, lsb } => {
            law_substitution_is_override(*value, m, env);
            law_substitution_is_override(*msb, m, env);
            law_substitution_is_override(*lsb, m, env);
        },
        ExprM::MemRead { stem, index } => {
            law_substitution_is_override(*index, m, env);
        },
    }
}

proof fn lemma_substitution_override_all(es: Seq<ExprM>, m: Map<Seq<char>, ExprM>, env: Env)
    ensures
        super::eval::eval_all(super::subst::subst_all(es, m), env) == super::eval::eval_all(
            es,
            overridden(env, m),
        ),
    decreases es,
{
    if es.len() > 0 {
        lemma_substitution_override_all(es.drop_last(), m, env);
        law_substitution_is_override(es.last(), m, env);
        let out = super::subst::subst_all(es, m);
        assert(out.drop_last() == super::subst::subst_all(es.drop_last(), m));
    }
}

/// Two environments that differ only on names that the expression does not read give it
/// the same value.
proof fn lemma_eval_reads(e: ExprM, names: Set<Seq<char>>, a: Env, b: Env)
    requires
        b == (Env { ident: b.ident, ..a }),
        super::subst::reads(e).subset_of(names),
        forall|n: Seq<char>| #[trigger] names.contains(n) ==> (a.ident)(n) == (b.ident)(n),
    ensures
        super::eval::eval(e, a) == super::eval::eval(e, b),
    decreases e,
{
    match e {
        ExprM::Const(_) => {},
        ExprM::Ident(n) => {
            assert(super::subst::reads(e).contains(n));
        },
        ExprM::Binary { op, left, right } => {
            assert(super::subst::reads(e) == super::subst::reads(*left).union(
                super::subst::reads(*right),
            ));
            lemma_eval_reads(*left, names, a, b);
            lemma_eval_reads(*right, names, a, b);
        },
        ExprM::Unary { op, operand } => {
            assert(super::subst::reads(e) == super::subst::reads(*operand));
            lemma_eval_reads(*operand, names, a, b);
        },
        ExprM::Signed(x) => {
            assert(super::subst::reads(e) == super::subst::reads(*x));
            lemma_eval_reads(*x, names, a, b);
        },
        ExprM::Ternary { cond, then_expr, else_expr } => {
            assert(super::subst::reads(e) == super::subst::reads(*cond).union(
                super::subst::reads(*then_expr),
            ).union(super::subst::reads(*else_expr)));
            lemma_eval_reads(*cond, names, a, b);
            lemma_eval_reads(*then_expr, names, a, b);
            lemma_eval_reads(*else_expr, names, a, b);
        },
        ExprM::Concat(es) => {
            assert(super::subst::reads(e) == super::subst::reads_all(es));
            lemma_eval_reads_all(es, names, a, b);
        },
        ExprM::PartSelect { value, msb, lsb } => {
            assert(super::subst::reads(e) == super::subst::reads(*value).union(
                super::subst::reads(*msb),
            ).union(super::subst::reads(*lsb)));
            lemma_eval_reads(*value, names, a, b);
            lemma_eval_reads(*msb, names, a, b);
            lemma_eval_reads(*lsb, names, a, b);
        },
        ExprM::MemRead { stem, index } => {
            assert(super::subst::reads(e) == super::subst::reads(*index));
            lemma_eval_reads(*index, names, a, b);
        },
    }
}

proof fn lemma_eval_reads_all(es: Seq<ExprM>, names: Set<Seq<char>>, a: Env, b: Env)
    requires
        b == (Env { ident: b.ident, ..a }),
        super::subst::reads_all(es).subset_of(names),
        forall|n: Seq<char>| #[trigger] names.contains(n) ==> (a.ident)(n) == (b.ident)(n),
    ensures
        super::eval::eval_all(es, a) == super::eval::eval_all(es, b),
    decreases es,
{
    if es.len() > 0 {
        assert(super::subst::reads_all(es) == super::subst::reads_all(es.drop_last()).union(
            super::subst::reads(es.last()),
        ));
        lemma_eval_reads_all(es.drop_last(), names, a, b);
        lemma_eval_reads(es.last(), names, a, b);
    }
}

/// A name that an expression reads is one that it mentions.
proof fn lemma_reads_mentioned(e: ExprM)
    ensures
        super::subst::reads(e).subset_of(super::subst::idents(e)),
    decreases e,
{
    match e {
        ExprM::Const(_) | ExprM::Ident(_) => {},
        ExprM::Binary { op, left, right } => {
            lemma_reads_mentioned(*left);
            lemma_reads_mentioned(*right);
        },
        ExprM::Unary { op, operand } => {
            lemma_reads_mentioned(*operand);
        },
        ExprM::Signed(x) => {
            lemma_reads_mentioned(*x);
        },
        ExprM::Ternary { cond, then_expr, else_expr } => {
            lemma_reads_mentioned(*cond);
            lemma_reads_mentioned(*then_expr);
            lemma_reads_mentioned(*else_expr);
        },
        ExprM::Concat(es) => {
            lemma_reads_mentioned_all(es);
        },
        ExprM::PartSelect { value, msb, lsb } => {
            lemma_reads_mentioned(*value);
            lemma_reads_mentioned(*msb);
            lemma_reads_mentioned(*lsb);
        },
        ExprM::MemRead { stem, index } => {
            lemma_reads_mentioned(*index);
        },
    }
}

proof fn lemma_reads_mentioned_all(es: Seq<ExprM>)
    ensures
        super::subst::reads_all(es).subset_of(super::subst::idents_all(es)),
    decreases es,
{
    if es.len() > 0 {
        lemma_reads_mentioned_all(es.drop_last());
        lemma_reads_mentioned(es.last());
    }
}

/// Copy propagation keeps exactly the solutions of a list of assigns whose copies do not
/// go round in a circle.
pub proof fn law_copy_propagation_keeps_solutions(s: Seq<AssignM>, env: Env)
    requires
        acyclic_copies(s),
    ensures
        satisfies(
            super::subst::subst_assigns(
                s,
                super::subst::map_of(super::passes::copies(s)),
                true,
            ),
            env,
        ) <==> satisfies(s, env),
{
    let list = super::passes::copy_entries(s, s);
    let fin = super::passes::copies(s);
    let m = super::subst::map_of(fin);
    let out = super::subst::subst_assigns(s, m, true);
    if satisfies(s, env) {
        law_copy_propagation_keeps_each_solution(s, env);
    }
    if satisfies(out, env) {
        assert(s.take(s.len() as int) == s);
        super::passes::lemma_copy_entries(s, s.len() as int);
        law_copy_chains_resolve(s);
        let over = overridden(env, m);
        lemma_rounds_agree(list, list.len(), over);
        super::passes::lemma_map_entries(fin);
        assert(list_agrees(fin, over)) by {
            assert forall|i: int| 0 <= i < fin.len() implies super::eval::eval(
                (#[trigger] fin[i]).1,
                over,
            ) == (over.ident)(fin[i].0) by {
                assert(entry_resolved(fin, i));
                assert forall|n: Seq<char>| #[trigger]
                    super::subst::reads(fin[i].1).contains(n) implies (over.ident)(n) == (
                env.ident)(n) by {
                    if m.contains_key(n) {
                        let j = choose|j: int| 0 <= j < fin.len() && (#[trigger] fin[j]).0 == n;
                        assert(is_key(fin, n));
                    }
                }
                lemma_eval_reads(fin[i].1, super::subst::reads(fin[i].1), over, env);
                assert(m.contains_key(fin[i].0) && m[fin[i].0] == fin[i].1);
            }
        }
        assert(list_agrees(list, over));
        assert forall|n: Seq<char>| #[trigger] m.contains_key(n) implies super::eval::eval(
            m[n],
            env,
        ) == (env.ident)(n) by {
            let i = choose|i: int| 0 <= i < fin.len() && (#[trigger] fin[i]).0 == n;
            assert(list[i].0 == n);
            let j = choose|j: int|
                0 <= j < s.len() && #[trigger] s[j].lhs == list[i].0 && s[j].rhs == list[i].1
                    && super::passes::copyable(s, s[j]);
            let own = m.remove(n);
            assert(out[j].lhs == n && out[j].rhs == super::subst::subst(s[j].rhs, own));
            law_substitution_is_override(s[j].rhs, own, env);
            let part = overridden(env, own);
            lemma_reads_mentioned(s[j].rhs);
            assert forall|q: Seq<char>| #[trigger]
                super::subst::reads(s[j].rhs).contains(q) implies (part.ident)(q) == (over.ident)(
                q,
            ) by {
                assert(super::subst::idents(s[j].rhs).contains(q));
                assert(q != n);
            }
            lemma_eval_reads(s[j].rhs, super::subst::reads(s[j].rhs), part, over);
            assert(super::eval::eval(list[i].1, over) == (over.ident)(list[i].0));
        }
        lemma_subst_solutions(s, m, true, env);
    }
}

// ---------------------------------------------------------------------------------------
// Dead signals, one iteration, the whole run
// ---------------------------------------------------------------------------------------
/// Removing dead signals keeps every solution, and keeps the assigns of declared and of
/// used names.
pub proof fn law_dead_elimination_keeps_live(
    ctx: super::names::Surroundings,
    s: Seq<AssignM>,
    env: Env,
)
    ensures
        satisfies(s, env) ==> satisfies(super::names::live_assigns(ctx, s), env),
        forall|i: int|
            0 <= i < s.len() && (ctx.declared.contains((#[trigger] s[i]).lhs)
                || super::names::used_names(ctx, s).contains(s[i].lhs))
                ==> super::names::live_assigns(ctx, s).contains(s[i]),
{
    let live = |a: AssignM| super::names::is_live(ctx, s, a.lhs);
    let out = super::names::live_assigns(ctx, s);
    assert(out == s.filter(live));
    broadcast use vstd::seq_lib::group_filter_ensures;

    if satisfies(s, env) {
        lemma_filter_satisfies(s, live, env);
    }
    assert forall|i: int|
        0 <= i < s.len() && (ctx.declared.contains((#[trigger] s[i]).lhs)
            || super::names::used_names(ctx, s).contains(s[i].lhs)) implies out.contains(s[i]) by {
        assert(live(s[i]));
    }
}

proof fn lemma_filter_satisfies(s: Seq<AssignM>, p: spec_fn(AssignM) -> bool, env: Env)
    requires
        satisfies(s, env),
    ensures
        satisfies(s.filter(p), env),
    decreases s.len(),
{
    reveal(Seq::filter);
    if s.len() > 0 {
        let rest = s.drop_last();
        assert forall|i: int| 0 <= i < rest.len() implies (env.ident)((#[trigger] rest[i]).lhs)
            == super::eval::eval(rest[i].rhs, env) by {
            assert(rest[i] == s[i]);
        }
        lemma_filter_satisfies(rest, p, env);
        assert(s[s.len() - 1] == s.last());
    }
}

/// The algebraic pass of one iteration makes only exact replacements in `env`.
pub open spec fn exact_round(s: Seq<AssignM>, env: Env) -> bool {
    let c = super::canonical::canonical_assigns(s);
    forall|i: int|
        0 <= i < c.len() ==> super::rewrite::exact_rewriting(
            Rule::Algebraic,
            (#[trigger] c[i]).rhs,
            env,
        )
}

/// One iteration of all passes keeps every solution.
pub proof fn law_iteration_keeps_solutions(
    ctx: super::names::Surroundings,
    s: Seq<AssignM>,
    env: Env,
)
    requires
        satisfies(s, env),
        exact_round(s, env),
    ensures
        satisfies(super::round(ctx, s).live, env),
{
    let r = super::round(ctx, s);
    law_canonical_keeps_solutions(s, env);
    law_rewriting_keeps_solutions(Rule::Algebraic, r.canonical, env);
    assert forall|i: int| 0 <= i < r.folded.len() implies super::rewrite::exact_rewriting(
        Rule::Peephole,
        (#[trigger] r.folded[i]).rhs,
        env,
    ) by {
        law_peephole_and_sink_are_exact(Rule::Peephole, r.folded[i].rhs, env);
    }
    law_rewriting_keeps_solutions(Rule::Peephole, r.folded, env);
    law_constant_propagation_keeps_solutions(r.combined, env);
    law_copy_propagation_keeps_each_solution(r.const_propagated, env);
    law_cse_keeps_solutions(r.copy_propagated, env);
    assert forall|i: int| 0 <= i < r.deduplicated.len() implies super::rewrite::exact_rewriting(
        Rule::Sink,
        (#[trigger] r.deduplicated[i]).rhs,
        env,
    ) by {
        law_peephole_and_sink_are_exact(Rule::Sink, r.deduplicated[i].rhs, env);
    }
    law_rewriting_keeps_solutions(Rule::Sink, r.deduplicated, env);
    law_dead_elimination_keeps_live(ctx, r.sunk, env);
}

/// A rewriting traversal that replaces nothing returns the expression as it was.
proof fn lemma_rewrite_idle(rule: Rule, e: ExprM)
    requires
        super::rewrite::rewrite_count(rule, e) == 0,
    ensures
        super::rewrite::rewritten(rule, e) == e,
    decreases e,
{
    match e {
        ExprM::Const(_) | ExprM::Ident(_) => {},
        ExprM::Binary { op, left, right } => {
            lemma_rewrite_idle(rule, *left);
            lemma_rewrite_idle(rule, *right);
        },
        ExprM::Unary { op, operand } => {
            lemma_rewrite_idle(rule, *operand);
        },
        ExprM::Signed(x) => {
            lemma_rewrite_idle(rule, *x);
        },
        ExprM::Ternary { cond, then_expr, else_expr } => {
            lemma_rewrite_idle(rule, *cond);
            lemma_rewrite_idle(rule, *then_expr);
            lemma_rewrite_idle(rule, *else_expr);
        },
        ExprM::Concat(es) => {
            lemma_rewrite_idle_all(rule, es);
        },
        ExprM::PartSelect { value, msb, lsb } => {
            lemma_rewrite_idle(rule, *value);
            lemma_rewrite_idle(rule, *msb);
            lemma_rewrite_idle(rule, *lsb);
        },
        ExprM::MemRead { stem, index } => {
            lemma_rewrite_idle(rule, *index);
        },
    }
    assert(super::rewrite::rewritten_kids(rule, e) == e);
}

proof fn lemma_rewrite_idle_all(rule: Rule, es: Seq<ExprM>)
    requires
        super::rewrite::rewrite_count_all(rule, es) == 0,
    ensures
        super::rewrite::rewritten_all(rule, es) == es,
    decreases es,
{
    if es.len() > 0 {
        lemma_rewrite_idle_all(rule, es.drop_last());
        lemma_rewrite_idle(rule, es.last());
        assert(super::rewrite::rewritten_all(rule, es) =~= es);
    } else {
        assert(super::rewrite::rewritten_all(rule, es) =~= es);
    }
}

proof fn lemma_swap_idle(e: ExprM)
    requires
        super::canonical::swap_count(e) == 0,
    ensures
        super::canonical::canonical(e) == e,
    decreases e,
{
    match e {
        ExprM::Const(_) | ExprM::Ident(_) => {},
        ExprM::Binary { op, left, right } => {
            lemma_swap_idle(*left);
            lemma_swap_idle(*right);
        },
        ExprM::Unary { op, operand } => {
            lemma_swap_idle(*operand);
        },
        ExprM::Signed(x) => {
            lemma_swap_idle(*x);
        },
        ExprM::Ternary { cond, then_expr, else_expr } => {
            lemma_swap_idle(*cond);
            lemma_swap_idle(*then_expr);
            lemma_swap_idle(*else_expr);
        },
        ExprM::Concat(es) => {
            lemma_swap_idle_all(es);
        },
        ExprM::PartSelect { value, msb, lsb } => {
            lemma_swap_idle(*value);
            lemma_swap_idle(*msb);
            lemma_swap_idle(*lsb);
        },
        ExprM::MemRead { stem, index } => {
            lemma_swap_idle(*index);
        },
    }
}

proof fn lemma_swap_idle_all(es: Seq<ExprM>)
    requires
        super::canonical::swap_count_all(es) == 0,
    ensures
        super::canonical::canonical_all(es) == es,
    decreases es,
{
    if es.len() > 0 {
        lemma_swap_idle_all(es.drop_last());
        lemma_swap_idle(es.last());
        assert(super::canonical::canonical_all(es) =~= es);
    } else {
        assert(super::canonical::canonical_all(es) =~= es);
    }
}

proof fn lemma_canonical_assigns_idle(s: Seq<AssignM>)
    requires
        super::canonical::swap_count_assigns(s) == 0,
    ensures
        super::canonical::canonical_assigns(s) == s,
    decreases s.len(),
{
    let out = super::canonical::canonical_assigns(s);
    if s.len() > 0 {
        lemma_canonical_assigns_idle(s.drop_last());
        lemma_swap_idle(s.last().rhs);
        assert forall|i: int| 0 <= i < s.len() implies out[i] == s[i] by {
            if i < s.len() - 1 {
                assert(super::canonical::canonical_assigns(s.drop_last())[i] == s.drop_last()[i]);
            }
        }
    }
    assert(out =~= s);
}

proof fn lemma_rewritten_assigns_idle(rule: Rule, s: Seq<AssignM>)
    requires
        super::rewrite::rewrite_count_assigns(rule, s) == 0,
    ensures
        super::rewrite::rewritten_assigns(rule, s) == s,
    decreases s.len(),
{
    let out = super::rewrite::rewritten_assigns(rule, s);
    if s.len() > 0 {
        lemma_rewritten_assigns_idle(rule, s.drop_last());
        lemma_rewrite_idle(rule, s.last().rhs);
        assert forall|i: int| 0 <= i < s.len() implies out[i] == s[i] by {
            if i < s.len() - 1 {
                assert(super::rewrite::rewritten_assigns(rule, s.drop_last())[i]
                    == s.drop_last()[i]);
            }
        }
    }
    assert(out =~= s);
}

proof fn lemma_subst_assigns_idle(s: Seq<AssignM>, m: Map<Seq<char>, ExprM>, skip_own: bool)
    requires
        super::subst::subst_count_assigns(s, m, skip_own) == 0,
    ensures
        super::subst::subst_assigns(s, m, skip_own) == s,
    decreases s.len(),
{
    let out = super::subst::subst_assigns(s, m, skip_own);
    if s.len() > 0 {
        lemma_subst_assigns_idle(s.drop_last(), m, skip_own);
        super::subst::law_substitution_count(
            s.last().rhs,
            if skip_own {
                m.remove(s.last().lhs)
            } else {
                m
            },
        );
        assert forall|i: int| 0 <= i < s.len() implies out[i] == s[i] by {
            if i < s.len() - 1 {
                assert(super::subst::subst_assigns(s.drop_last(), m, skip_own)[i]
                    == s.drop_last()[i]);
            }
        }
    }
    assert(out =~= s);
}

proof fn lemma_filter_full<A>(s: Seq<A>, p: spec_fn(A) -> bool)
    requires
        s.filter(p).len() == s.len(),
    ensures
        s.filter(p) == s,
    decreases s.len(),
{
    reveal(Seq::filter);
    if s.len() > 0 {
        s.drop_last().lemma_filter_len(p);
        lemma_filter_full(s.drop_last(), p);
    }
    assert(s.filter(p) =~= s);
}

/// An iteration that counts no transformation leaves the assigns as they were.
pub proof fn law_idle_iteration_changes_nothing(
    ctx: super::names::Surroundings,
    s: Seq<AssignM>,
)
    requires
        super::transformations(super::round_counts(super::round(ctx, s))) == 0,
    ensures
        super::round(ctx, s).live == s,
{
    let r = super::round(ctx, s);
    let live = |a: AssignM| super::names::is_live(ctx, r.sunk, a.lhs);
    r.sunk.lemma_filter_len(live);
    lemma_canonical_assigns_idle(s);
    lemma_rewritten_assigns_idle(Rule::Algebraic, r.canonical);
    lemma_rewritten_assigns_idle(Rule::Peephole, r.folded);
    lemma_subst_assigns_idle(r.combined, super::passes::const_map(r.combined), false);
    lemma_subst_assigns_idle(
        r.const_propagated,
        super::subst::map_of(super::passes::copies(r.const_propagated)),
        true,
    );
    lemma_subst_assigns_idle(
        r.copy_propagated,
        super::subst::map_of(super::passes::cse_scan(r.copy_propagated).rename),
        false,
    );
    lemma_rewritten_assigns_idle(Rule::Sink, r.deduplicated);
    lemma_filter_full(r.sunk, live);
}

/// The number of recorded scores is the number of iterations, of which there is at least
/// one and at most `limit`.
pub proof fn law_score_per_iteration(
    ctx: super::names::Surroundings,
    s: Seq<AssignM>,
    acc: super::MetricsM,
    limit: nat,
)
    requires
        acc.score_history.len() == acc.total_passes,
        limit >= 1,
    ensures
        super::optimized(ctx, s, acc, limit).metrics.score_history.len() == super::optimized(
            ctx,
            s,
            acc,
            limit,
        ).metrics.total_passes,
        acc.total_passes + 1 <= super::optimized(ctx, s, acc, limit).metrics.total_passes
            <= acc.total_passes + limit,
    decreases limit,
{
    let r = super::round(ctx, s);
    let sum = super::add_metrics(acc, super::round_counts(r));
    if super::transformations(super::round_counts(r)) != 0 && limit > 1 {
        law_score_per_iteration(ctx, r.live, sum, (limit - 1) as nat);
    }
}

/// Optimization ends in a fixed point: unless the limit on iterations was reached, one
/// more iteration counts no transformation and changes nothing.
pub proof fn law_optimized_is_fixed_point(
    ctx: super::names::Surroundings,
    s: Seq<AssignM>,
    acc: super::MetricsM,
    limit: nat,
)
    requires
        limit >= 1,
        acc.score_history.len() == acc.total_passes,
        super::optimized(ctx, s, acc, limit).metrics.total_passes < acc.total_passes + limit,
    ensures
        super::transformations(
            super::round_counts(
                super::round(ctx, super::optimized(ctx, s, acc, limit).assigns),
            ),
        ) == 0,
        super::round(ctx, super::optimized(ctx, s, acc, limit).assigns).live == super::optimized(
            ctx,
            s,
            acc,
            limit,
        ).assigns,
    decreases limit,
{
    let r = super::round(ctx, s);
    let c = super::round_counts(r);
    let sum = super::add_metrics(acc, c);
    if super::transformations(c) == 0 {
        law_idle_iteration_changes_nothing(ctx, s);
    } else if limit > 1 {
        law_optimized_is_fixed_point(ctx, r.live, sum, (limit - 1) as nat);
    }
}

/// Optimizing what has been optimized counts no transformation and changes nothing, unless
/// the first time went to the limit on iterations.
pub proof fn law_optimizing_again_changes_nothing(
    ctx: super::names::Surroundings,
    s: Seq<AssignM>,
    limit: nat,
)
    requires
        limit >= 1,
        super::optimized(ctx, s, super::zero_metrics(), limit).metrics.total_passes < limit,
    ensures
        ({
            let once = super::optimized(ctx, s, super::zero_metrics(), limit);
            let twice = super::optimized(ctx, once.assigns, super::zero_metrics(), limit);
            &&& twice.assigns == once.assigns
            &&& super::transformations(twice.metrics) == 0
            &&& twice.metrics.total_passes == 1
        }),
{
    law_optimized_is_fixed_point(ctx, s, super::zero_metrics(), limit);
}

/// Where optimization took more than one iteration and ended in a fixed point, the last two
/// scores are equal.
pub proof fn law_last_scores_are_equal(
    ctx: super::names::Surroundings,
    s: Seq<AssignM>,
    limit: nat,
)
    requires
        limit >= 1,
        1 < super::optimized(ctx, s, super::zero_metrics(), limit).metrics.total_passes < limit,
    ensures
        ({
            let h = super::optimized(ctx, s, super::zero_metrics(), limit).metrics.score_history;
            h.len() >= 2 && h[h.len() - 1] == h[h.len() - 2]
        }),
{
    let r = super::round(ctx, s);
    let c = super::round_counts(r);
    let sum = super::add_metrics(super::zero_metrics(), c);
    assert(super::transformations(c) != 0 && limit > 1);
    assert(sum.score_history =~= c.score_history);
    lemma_last_scores(ctx, r.live, sum, (limit - 1) as nat);
}

proof fn lemma_last_scores(
    ctx: super::names::Surroundings,
    s: Seq<AssignM>,
    acc: super::MetricsM,
    limit: nat,
)
    requires
        limit >= 1,
        acc.score_history.len() > 0,
        acc.score_history.len() == acc.total_passes,
        acc.score_history.last() == super::rewrite::sat(super::assigns_size(s)),
        super::optimized(ctx, s, acc, limit).metrics.total_passes < acc.total_passes + limit,
    ensures
        ({
            let h = super::optimized(ctx, s, acc, limit).metrics.score_history;
            h.len() >= 2 && h[h.len() - 1] == h[h.len() - 2]
        }),
    decreases limit,
{
    let r = super::round(ctx, s);
    let c = super::round_counts(r);
    let sum = super::add_metrics(acc, c);
    assert(sum.score_history.last() == super::rewrite::sat(super::assigns_size(r.live)));
    if super::transformations(c) == 0 {
        law_idle_iteration_changes_nothing(ctx, s);
        assert(sum.score_history[sum.score_history.len() - 2] == acc.score_history.last());
    } else if limit > 1 {
        lemma_last_scores(ctx, r.live, sum, (limit - 1) as nat);
    }
}

/// The algebraic passes of all iterations make only exact replacements in `env`.
pub open spec fn exact_run(
    ctx: super::names::Surroundings,
    s: Seq<AssignM>,
    limit: nat,
    env: Env,
) -> bool
    decreases limit,
{
    &&& exact_round(s, env)
    &&& {
        let r = super::round(ctx, s);
        super::transformations(super::round_counts(r)) == 0 || limit <= 1 || exact_run(
            ctx,
            r.live,
            (limit - 1) as nat,
            env,
        )
    }
}

/// Optimization as a whole keeps every solution.
pub proof fn law_optimization_keeps_solutions(
    ctx: super::names::Surroundings,
    s: Seq<AssignM>,
    acc: super::MetricsM,
    limit: nat,
    env: Env,
)
    requires
        satisfies(s, env),
        exact_run(ctx, s, limit, env),
    ensures
        satisfies(super::optimized(ctx, s, acc, limit).assigns, env),
    decreases limit,
{
    law_iteration_keeps_solutions(ctx, s, env);
    let r = super::round(ctx, s);
    let c = super::round_counts(r);
    if super::transformations(c) != 0 && limit > 1 {
        law_optimization_keeps_solutions(
            ctx,
            r.live,
            super::add_metrics(acc, c),
            (limit - 1) as nat,
            env,
        );
    }
}

/// What the optimizer ends with, unless it was stopped, has nothing left to do for any of its
/// passes: operands are in order, no rule applies anywhere, no constant, copy or repeated
/// computation is left to replace, and every assign is needed.
pub proof fn law_nothing_is_left_to_do(
    ctx: super::names::Surroundings,
    s: Seq<AssignM>,
    acc: super::MetricsM,
    limit: nat,
    i: int,
)
    requires
        limit >= 1,
        acc.score_history.len() == acc.total_passes,
        super::optimized(ctx, s, acc, limit).metrics.total_passes < acc.total_passes + limit,
        0 <= i < super::optimized(ctx, s, acc, limit).assigns.len(),
    ensures
        ({
            let out = super::optimized(ctx, s, acc, limit).assigns;
            let e = out[i].rhs;
            &&& super::canonical::canonical(e) == e
            &&& super::rewrite::rewritten(Rule::Algebraic, e) == e
            &&& super::rewrite::rewritten(Rule::Peephole, e) == e
            &&& super::rewrite::rewritten(Rule::Sink, e) == e
            &&& super::subst::subst(e, super::passes::const_map(out)) == e
            &&& super::subst::subst(
                e,
                super::subst::map_of(super::passes::copies(out)).remove(out[i].lhs),
            ) == e
            &&& super::subst::subst(
                e,
                super::subst::map_of(super::passes::cse_scan(out).rename),
            ) == e
            &&& super::names::is_live(ctx, out, out[i].lhs)
        }),
{
    let out = super::optimized(ctx, s, acc, limit).assigns;
    law_optimized_is_fixed_point(ctx, s, acc, limit);
    let r = super::round(ctx, out);
    let live = |a: AssignM| super::names::is_live(ctx, r.sunk, a.lhs);
    r.sunk.lemma_filter_len(live);
    lemma_canonical_assigns_idle(out);
    assert(super::canonical::canonical_assigns(out)[i] == out[i]);
    lemma_rewritten_assigns_idle(Rule::Algebraic, out);
    assert(super::rewrite::rewritten_assigns(Rule::Algebraic, out)[i] == out[i]);
    lemma_rewritten_assigns_idle(Rule::Peephole, out);
    assert(super::rewrite::rewritten_assigns(Rule::Peephole, out)[i] == out[i]);
    lemma_subst_assigns_idle(out, super::passes::const_map(out), false);
    assert(super::subst::subst_assigns(out, super::passes::const_map(out), false)[i] == out[i]);
    let copies = super::subst::map_of(super::passes::copies(out));
    lemma_subst_assigns_idle(out, copies, true);
    assert(super::subst::subst_assigns(out, copies, true)[i] == out[i]);
    let renames = super::subst::map_of(super::passes::cse_scan(out).rename);
    lemma_subst_assigns_idle(out, renames, false);
    assert(super::subst::subst_assigns(out, renames, false)[i] == out[i]);
    lemma_rewritten_assigns_idle(Rule::Sink, out);
    assert(super::rewrite::rewritten_assigns(Rule::Sink, out)[i] == out[i]);
    assert(r.sunk == out);
    lemma_filter_holds(out, live, i);
}

proof fn lemma_filter_holds(s: Seq<AssignM>, p: spec_fn(AssignM) -> bool, i: int)
    requires
        s.filter(p).len() == s.len(),
        0 <= i < s.len(),
    ensures
        p(s[i]),
    decreases s.len(),
{
    reveal(Seq::filter);
    let front = s.drop_last();
    front.lemma_filter_len(p);
    if i < front.len() {
        assert(front[i] == s[i]);
        lemma_filter_holds(front, p, i);
    }
}

} // verus!
