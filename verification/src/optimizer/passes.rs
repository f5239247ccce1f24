//! Passes over the list of continuous assigns: constant propagation, copy propagation,
//! common-subexpression elimination, two-state inference.
use super::subst::{expr_references, is_propagatable, substitute, substitute_assigns, Bindings};
use crate::ir::{expr_eq, AssignM, ExprM, IrAssign, IrExpr};
use vstd::prelude::*;

verus! {

// ---------------------------------------------------------------------------------------
// Constant propagation
// ---------------------------------------------------------------------------------------
/// The assigns of a constant, as table entries in order.
pub open spec fn const_entries(s: Seq<AssignM>) -> Seq<(Seq<char>, ExprM)>
    decreases s.len(),
{
    if s.len() == 0 {
        Seq::empty()
    } else if s.last().rhs is Const {
        const_entries(s.drop_last()).push((s.last().lhs, s.last().rhs))
    } else {
        const_entries(s.drop_last())
    }
}

/// The constant that each name is assigned, if any; the last such assign counts.
pub open spec fn const_map(s: Seq<AssignM>) -> Map<Seq<char>, ExprM> {
    super::subst::map_of(const_entries(s))
}

/// Replaces names that are assigned a constant by the constant.
pub fn constant_propagation(assigns: &mut Vec<IrAssign>) -> (count: usize)
    ensures
        crate::ir::assigns_view(final(assigns)@) == super::subst::subst_assigns(
            crate::ir::assigns_view(old(assigns)@),
            const_map(crate::ir::assigns_view(old(assigns)@)),
            false,
        ),
        count == super::rewrite::sat(
            super::subst::subst_count_assigns(
                crate::ir::assigns_view(old(assigns)@),
                const_map(crate::ir::assigns_view(old(assigns)@)),
                false,
            ),
        ),
{
    let ghost model = crate::ir::assigns_view(assigns@);
    let mut map = Bindings::new();
    let mut i: usize = 0;
    assert(super::subst::entries_of(map.entries@) =~= const_entries(model.take(0)));
    while i < assigns.len()
        invariant
            i <= assigns@.len(),
            model == crate::ir::assigns_view(assigns@),
            super::subst::entries_of(map.entries@) == const_entries(model.take(i as int)),
        decreases assigns@.len() - i,
    {
        assert(model.take(i + 1).drop_last() == model.take(i as int));
        assert(model.take(i + 1).last() == assigns@[i as int]@);
        if let IrExpr::Const(v) = &assigns[i].rhs {
            map.insert(assigns[i].lhs.clone(), IrExpr::Const(*v));
        }
        i = i + 1;
    }
    assert(model.take(i as int) == model);
    substitute_assigns(assigns, &map, false)
}

// ---------------------------------------------------------------------------------------
// Copy propagation
// ---------------------------------------------------------------------------------------
/// How often a name is assigned.
pub open spec fn def_count(s: Seq<AssignM>, name: Seq<char>) -> nat
    decreases s.len(),
{
    if s.len() == 0 {
        0
    } else {
        def_count(s.drop_last(), name) + if s.last().lhs == name {
            1nat
        } else {
            0nat
        }
    }
}

/// The assign may be copied into the uses of its name: it is the only one of the name,
/// does not mention the name itself, and is small.
pub open spec fn copyable(all: Seq<AssignM>, a: AssignM) -> bool {
    def_count(all, a.lhs) == 1 && !super::subst::idents(a.rhs).contains(a.lhs)
        && super::subst::depth(a.rhs) <= 3
}

/// The copyable assigns among `s`, in order.
pub open spec fn copy_entries(all: Seq<AssignM>, s: Seq<AssignM>) -> Seq<(Seq<char>, ExprM)>
    decreases s.len(),
{
    if s.len() == 0 {
        Seq::empty()
    } else if copyable(all, s.last()) {
        copy_entries(all, s.drop_last()).push((s.last().lhs, s.last().rhs))
    } else {
        copy_entries(all, s.drop_last())
    }
}

/// Entry `i` with the other entries substituted into it.
pub open spec fn resolve_step(list: Seq<(Seq<char>, ExprM)>, i: int) -> Seq<(Seq<char>, ExprM)> {
    list.update(
        i,
        (
            list[i].0,
            super::subst::subst(list[i].1, super::subst::map_of(list).remove(list[i].0)),
        ),
    )
}

/// The entries from `i` on resolved one after the other.
pub open spec fn resolve_from(list: Seq<(Seq<char>, ExprM)>, i: int) -> Seq<(Seq<char>, ExprM)>
    decreases list.len() - i,
{
    if 0 <= i < list.len() {
        resolve_from(resolve_step(list, i), i + 1)
    } else {
        list
    }
}

/// `n` rounds of resolving every entry.
pub open spec fn resolve_rounds(list: Seq<(Seq<char>, ExprM)>, n: nat) -> Seq<(Seq<char>, ExprM)>
    decreases n,
{
    if n == 0 {
        list
    } else {
        resolve_rounds(resolve_from(list, 0), (n - 1) as nat)
    }
}

/// The copies with chains resolved: as many rounds as there are entries.
pub open spec fn copies(s: Seq<AssignM>) -> Seq<(Seq<char>, ExprM)> {
    let list = copy_entries(s, s);
    resolve_rounds(list, list.len())
}

fn count_defs(assigns: &Vec<IrAssign>, name: &String) -> (r: bool)
    ensures
        r == (def_count(crate::ir::assigns_view(assigns@), name@) == 1),
{
    let ghost model = crate::ir::assigns_view(assigns@);
    let mut found: u8 = 0;
    let mut i: usize = 0;
    while i < assigns.len()
        invariant
            i <= assigns@.len(),
            found <= 2,
            model == crate::ir::assigns_view(assigns@),
            found < 2 ==> found == def_count(model.take(i as int), name@),
            found == 2 ==> def_count(model.take(i as int), name@) >= 2,
        decreases assigns@.len() - i,
    {
        assert(model.take(i + 1).drop_last() == model.take(i as int));
        assert(model.take(i + 1).last() == assigns@[i as int]@);
        if assigns[i].lhs == *name && found < 2 {
            found = found + 1;
        }
        i = i + 1;
    }
    assert(model.take(i as int) == model);
    found == 1
}

proof fn lemma_map_update(list: Seq<(Seq<char>, ExprM)>, i: int, v: ExprM)
    requires
        0 <= i < list.len(),
        distinct_keys(list),
    ensures
        super::subst::map_of(list.update(i, (list[i].0, v))) == super::subst::map_of(list).insert(
            list[i].0,
            v,
        ),
    decreases list.len(),
{
    let out = list.update(i, (list[i].0, v));
    if i == list.len() - 1 {
        assert(out.drop_last() == list.drop_last());
        assert(super::subst::map_of(out) =~= super::subst::map_of(list).insert(list[i].0, v));
    } else {
        assert(list.drop_last()[i] == list[i]);
        lemma_map_update(list.drop_last(), i, v);
        assert(out.drop_last() == list.drop_last().update(i, (list[i].0, v)));
        assert(list[i].0 != list.last().0);
        assert(super::subst::map_of(out) =~= super::subst::map_of(list).insert(list[i].0, v));
    }
}

/// No key occurs twice.
pub open spec fn distinct_keys(list: Seq<(Seq<char>, ExprM)>) -> bool {
    forall|i: int, j: int| 0 <= i < j < list.len() ==> list[i].0 != list[j].0
}

/// In a table with distinct keys, every entry is the map's value of its key, and every
/// key of the map is that of an entry.
pub proof fn lemma_map_entries(list: Seq<(Seq<char>, ExprM)>)
    requires
        distinct_keys(list),
    ensures
        forall|i: int|
            0 <= i < list.len() ==> super::subst::map_of(list).contains_key(
                (#[trigger] list[i]).0,
            ) && super::subst::map_of(list)[list[i].0] == list[i].1,
        forall|k: Seq<char>| #[trigger]
            super::subst::map_of(list).contains_key(k) ==> exists|i: int|
                0 <= i < list.len() && (#[trigger] list[i]).0 == k,
    decreases list.len(),
{
    if list.len() > 0 {
        let rest = list.drop_last();
        lemma_map_entries(rest);
        assert forall|i: int| 0 <= i < list.len() implies super::subst::map_of(list).contains_key(
            (#[trigger] list[i]).0,
        ) && super::subst::map_of(list)[list[i].0] == list[i].1 by {
            if i < rest.len() {
                assert(rest[i] == list[i]);
            }
        }
        assert forall|k: Seq<char>| #[trigger]
            super::subst::map_of(list).contains_key(k) implies exists|i: int|
            0 <= i < list.len() && (#[trigger] list[i]).0 == k by {
            if k == list.last().0 {
                assert(list[list.len() - 1].0 == k);
            } else {
                assert(super::subst::map_of(rest).contains_key(k));
                let i = choose|i: int| 0 <= i < rest.len() && (#[trigger] rest[i]).0 == k;
                assert(list[i] == rest[i]);
            }
        }
    }
}

proof fn lemma_def_count_pos(s: Seq<AssignM>, i: int)
    requires
        0 <= i < s.len(),
    ensures
        def_count(s, s[i].lhs) >= 1,
    decreases s.len(),
{
    if i < s.len() - 1 {
        assert(s.drop_last()[i] == s[i]);
        lemma_def_count_pos(s.drop_last(), i);
    }
}

proof fn lemma_def_count_prefix(s: Seq<AssignM>, k: int, name: Seq<char>)
    requires
        0 <= k <= s.len(),
    ensures
        def_count(s.take(k), name) <= def_count(s, name),
    decreases s.len() - k,
{
    if k < s.len() {
        lemma_def_count_prefix(s, k + 1, name);
        assert(s.take(k + 1).drop_last() == s.take(k));
    } else {
        assert(s.take(k) == s);
    }
}

/// Keys of the copy table are names of copyable assigns, and no name occurs twice.
pub proof fn lemma_copy_entries(all: Seq<AssignM>, k: int)
    requires
        0 <= k <= all.len(),
    ensures
        distinct_keys(copy_entries(all, all.take(k))),
        forall|i: int|
            0 <= i < copy_entries(all, all.take(k)).len() ==> exists|j: int|
                0 <= j < k && #[trigger] all[j].lhs == (#[trigger] copy_entries(
                    all,
                    all.take(k),
                )[i]).0 && all[j].rhs == copy_entries(all, all.take(k))[i].1 && copyable(
                    all,
                    all[j],
                ),
    decreases k,
{
    if k > 0 {
        lemma_copy_entries(all, k - 1);
        let list = copy_entries(all, all.take(k));
        let rest = copy_entries(all, all.take(k - 1));
        assert(all.take(k).drop_last() == all.take(k - 1));
        let last = all[k - 1];
        assert(all.take(k).last() == last);
        if copyable(all, last) {
            assert(list == rest.push((last.lhs, last.rhs)));
            assert forall|i: int, j: int| 0 <= i < j < list.len() implies list[i].0
                != list[j].0 by {
                if j == rest.len() {
                    let q = choose|q: int|
                        0 <= q < k - 1 && #[trigger] all[q].lhs == (#[trigger] rest[i]).0
                            && all[q].rhs == rest[i].1 && copyable(all, all[q]);
                    if all[q].lhs == last.lhs {
                        // Two assigns of one name: its count would be two.
                        lemma_def_count_prefix(all, k, last.lhs);
                        assert(all.take(k - 1)[q] == all[q]);
                        lemma_def_count_pos(all.take(k - 1), q);
                    }
                }
            }
            assert forall|i: int| 0 <= i < list.len() implies exists|j: int|
                0 <= j < k && #[trigger] all[j].lhs == (#[trigger] list[i]).0 && all[j].rhs
                    == list[i].1 && copyable(all, all[j]) by {
                if i == rest.len() {
                    assert(all[k - 1].lhs == list[i].0);
                } else {
                    assert(rest[i] == list[i]);
                }
            }
        }
    }
}

proof fn lemma_resolve_shape(list: Seq<(Seq<char>, ExprM)>, i: int)
    requires
        distinct_keys(list),
        0 <= i,
    ensures
        resolve_from(list, i).len() == list.len(),
        distinct_keys(resolve_from(list, i)),
        forall|j: int|
            0 <= j < list.len() ==> (#[trigger] resolve_from(list, i)[j]).0 == list[j].0,
    decreases list.len() - i,
{
    if i < list.len() {
        let next = resolve_step(list, i);
        assert forall|a: int, b: int| 0 <= a < b < next.len() implies next[a].0 != next[b].0 by {
            assert(next[a].0 == list[a].0);
            assert(next[b].0 == list[b].0);
        }
        lemma_resolve_shape(next, i + 1);
    }
}

/// A step that replaces nothing leaves the table as it is.
proof fn lemma_resolve_idle(list: Seq<(Seq<char>, ExprM)>, i: int)
    requires
        0 <= i <= list.len(),
        forall|j: int|
            i <= j < list.len() ==> super::subst::subst_count(
                (#[trigger] list[j]).1,
                super::subst::map_of(list).remove(list[j].0),
            ) == 0,
    ensures
        resolve_from(list, i) == list,
    decreases list.len() - i,
{
    if i < list.len() {
        super::subst::law_substitution_count(
            list[i].1,
            super::subst::map_of(list).remove(list[i].0),
        );
        assert(resolve_step(list, i) =~= list);
        lemma_resolve_idle(list, i + 1);
    }
}

/// Once a round leaves the table as it is, so do all further rounds.
proof fn lemma_rounds_stable(list: Seq<(Seq<char>, ExprM)>, n: nat)
    requires
        resolve_from(list, 0) == list,
    ensures
        resolve_rounds(list, n) == list,
    decreases n,
{
    if n > 0 {
        lemma_rounds_stable(list, (n - 1) as nat);
    }
}

/// One round of resolving; says whether anything was replaced.
fn resolve_round(map: &mut Bindings) -> (changed: bool)
    requires
        distinct_keys(super::subst::entries_of(old(map).entries@)),
    ensures
        super::subst::entries_of(final(map).entries@) == resolve_from(
            super::subst::entries_of(old(map).entries@),
            0,
        ),
        distinct_keys(super::subst::entries_of(final(map).entries@)),
        final(map).entries@.len() == old(map).entries@.len(),
        !changed ==> super::subst::entries_of(final(map).entries@) == super::subst::entries_of(
            old(map).entries@,
        ),
{
    let ghost start = super::subst::entries_of(map.entries@);
    let n: usize = map.entries.len();
    let mut changed = false;
    let mut i: usize = 0;
    while i < n
        invariant
            i <= n,
            n == map.entries@.len(),
            distinct_keys(super::subst::entries_of(map.entries@)),
            resolve_from(super::subst::entries_of(map.entries@), i as int) == resolve_from(
                start,
                0,
            ),
            !changed ==> super::subst::entries_of(map.entries@) == start,
        decreases n - i,
    {
        let ghost list = super::subst::entries_of(map.entries@);
        let key = map.entries[i].0.clone();
        let mut value = map.entries[i].1.clone();
        let count = substitute(&mut value, map, Some(key.as_str()));
        if count > 0 {
            map.entries[i].1 = value;
            changed = true;
            proof {
                let now = super::subst::entries_of(map.entries@);
                assert(now =~= resolve_step(list, i as int));
                assert forall|a: int, b: int| 0 <= a < b < now.len() implies now[a].0
                    != now[b].0 by {
                    assert(now[a].0 == list[a].0);
                    assert(now[b].0 == list[b].0);
                }
            }
        } else {
            proof {
                super::subst::law_substitution_count(
                    list[i as int].1,
                    super::subst::map_of(list).remove(list[i as int].0),
                );
                assert(resolve_step(list, i as int) =~= list);
            }
        }
        i = i + 1;
    }
    changed
}

/// Substitutes names with exactly one, small and not self-referential, definition by that
/// definition.
pub fn copy_propagation(assigns: &mut Vec<IrAssign>) -> (count: usize)
    ensures
        crate::ir::assigns_view(final(assigns)@) == super::subst::subst_assigns(
            crate::ir::assigns_view(old(assigns)@),
            super::subst::map_of(copies(crate::ir::assigns_view(old(assigns)@))),
            true,
        ),
        count == super::rewrite::sat(
            super::subst::subst_count_assigns(
                crate::ir::assigns_view(old(assigns)@),
                super::subst::map_of(copies(crate::ir::assigns_view(old(assigns)@))),
                true,
            ),
        ),
{
    let ghost model = crate::ir::assigns_view(assigns@);
    let mut map = Bindings::new();
    let mut i: usize = 0;
    assert(super::subst::entries_of(map.entries@) =~= copy_entries(model, model.take(0)));
    while i < assigns.len()
        invariant
            i <= assigns@.len(),
            model == crate::ir::assigns_view(assigns@),
            super::subst::entries_of(map.entries@) == copy_entries(model, model.take(i as int)),
        decreases assigns@.len() - i,
    {
        assert(model.take(i + 1).drop_last() == model.take(i as int));
        assert(model.take(i + 1).last() == assigns@[i as int]@);
        let a = &assigns[i];
        if count_defs(assigns, &a.lhs) && !expr_references(&a.rhs, a.lhs.as_str())
            && is_propagatable(&a.rhs) {
            map.insert(a.lhs.clone(), a.rhs.clone());
        }
        i = i + 1;
    }
    assert(model.take(i as int) == model);
    let ghost list = copy_entries(model, model);
    proof {
        lemma_copy_entries(model, model.len() as int);
    }
    // A chain is at most as long as the table, so that many rounds resolve every chain.
    let mut rounds: usize = map.entries.len();
    while rounds > 0
        invariant
            distinct_keys(super::subst::entries_of(map.entries@)),
            resolve_rounds(super::subst::entries_of(map.entries@), rounds as nat)
                == resolve_rounds(list, list.len()),
        decreases rounds,
    {
        let ghost before = super::subst::entries_of(map.entries@);
        let changed = resolve_round(&mut map);
        rounds = rounds - 1;
        if !changed {
            proof {
                lemma_rounds_stable(before, (rounds + 1) as nat);
                lemma_rounds_stable(before, 0);
            }
            rounds = 0;
        }
    }
    substitute_assigns(assigns, &map, true)
}

// ---------------------------------------------------------------------------------------
// Common subexpression elimination
// ---------------------------------------------------------------------------------------
/// The name of the first recorded computation of `rhs` under another name.
pub open spec fn first_match(
    seen: Seq<(ExprM, Seq<char>)>,
    rhs: ExprM,
    lhs: Seq<char>,
) -> Option<Seq<char>>
    decreases seen.len(),
{
    if seen.len() == 0 {
        None
    } else {
        match first_match(seen.drop_last(), rhs, lhs) {
            Some(n) => Some(n),
            None => if seen.last().0 == rhs && seen.last().1 != lhs {
                Some(seen.last().1)
            } else {
                None
            },
        }
    }
}

/// What a scan of the assigns has recorded: computations seen first, and names to rename.
pub ghost struct CseM {
    pub seen: Seq<(ExprM, Seq<char>)>,
    pub rename: Seq<(Seq<char>, ExprM)>,
}

/// The scan of a list of assigns: a repeated computation is renamed to its first name;
/// constants and single names are left alone.
pub open spec fn cse_scan(s: Seq<AssignM>) -> CseM
    decreases s.len(),
{
    if s.len() == 0 {
        CseM { seen: Seq::empty(), rename: Seq::empty() }
    } else {
        let prev = cse_scan(s.drop_last());
        let a = s.last();
        if a.rhs is Const || a.rhs is Ident {
            prev
        } else {
            match first_match(prev.seen, a.rhs, a.lhs) {
                Some(n) => CseM { rename: prev.rename.push((a.lhs, ExprM::Ident(n))), ..prev },
                None => CseM { seen: prev.seen.push((a.rhs, a.lhs)), ..prev },
            }
        }
    }
}

/// Positions of the recorded computations.
spec fn seen_model(assigns: Seq<IrAssign>, seen: Seq<usize>) -> Seq<(ExprM, Seq<char>)> {
    Seq::new(
        seen.len(),
        |i: int| (assigns[seen[i] as int].rhs@, assigns[seen[i] as int].lhs@),
    )
}

fn find_match(assigns: &Vec<IrAssign>, seen: &Vec<usize>, at: usize) -> (r: Option<usize>)
    requires
        at < assigns@.len(),
        forall|i: int| 0 <= i < seen@.len() ==> #[trigger] seen@[i] < assigns@.len(),
    ensures
        match r {
            Some(k) => k < assigns@.len() && first_match(
                seen_model(assigns@, seen@),
                assigns@[at as int].rhs@,
                assigns@[at as int].lhs@,
            ) == Some(assigns@[k as int].lhs@),
            None => first_match(
                seen_model(assigns@, seen@),
                assigns@[at as int].rhs@,
                assigns@[at as int].lhs@,
            ) is None,
        },
{
    let ghost all = seen_model(assigns@, seen@);
    let ghost rhs = assigns@[at as int].rhs@;
    let ghost lhs = assigns@[at as int].lhs@;
    let mut i: usize = 0;
    while i < seen.len()
        invariant
            i <= seen@.len(),
            at < assigns@.len(),
            forall|i: int| 0 <= i < seen@.len() ==> #[trigger] seen@[i] < assigns@.len(),
            all == seen_model(assigns@, seen@),
            rhs == assigns@[at as int].rhs@,
            lhs == assigns@[at as int].lhs@,
            first_match(all.take(i as int), rhs, lhs) is None,
        decreases seen@.len() - i,
    {
        let k: usize = seen[i];
        assert(all.take(i + 1).drop_last() == all.take(i as int));
        assert(all.take(i + 1).last() == all[i as int]);
        if expr_eq(&assigns[k].rhs, &assigns[at].rhs) && assigns[k].lhs != assigns[at].lhs {
            proof {
                lemma_first_match_prefix(all, i + 1, rhs, lhs);
            }
            return Some(k);
        }
        i = i + 1;
    }
    assert(all.take(i as int) == all);
    None
}

proof fn lemma_first_match_prefix(
    seen: Seq<(ExprM, Seq<char>)>,
    k: int,
    rhs: ExprM,
    lhs: Seq<char>,
)
    requires
        0 <= k <= seen.len(),
        first_match(seen.take(k), rhs, lhs) is Some,
    ensures
        first_match(seen, rhs, lhs) == first_match(seen.take(k), rhs, lhs),
    decreases seen.len() - k,
{
    if k < seen.len() {
        assert(seen.take(k + 1).drop_last() == seen.take(k));
        lemma_first_match_prefix(seen, k + 1, rhs, lhs);
    } else {
        assert(seen.take(k) == seen);
    }
}

/// Rewrites uses of a name that repeats an earlier computation to the earlier name.
pub fn cse(assigns: &mut Vec<IrAssign>) -> (count: usize)
    ensures
        crate::ir::assigns_view(final(assigns)@) == super::subst::subst_assigns(
            crate::ir::assigns_view(old(assigns)@),
            super::subst::map_of(cse_scan(crate::ir::assigns_view(old(assigns)@)).rename),
            false,
        ),
        count == super::rewrite::sat(
            super::subst::subst_count_assigns(
                crate::ir::assigns_view(old(assigns)@),
                super::subst::map_of(cse_scan(crate::ir::assigns_view(old(assigns)@)).rename),
                false,
            ),
        ),
{
    let ghost model = crate::ir::assigns_view(assigns@);
    let mut seen: Vec<usize> = Vec::new();
    let mut rename = Bindings::new();
    let mut i: usize = 0;
    assert(seen_model(assigns@, seen@) =~= cse_scan(model.take(0)).seen);
    assert(super::subst::entries_of(rename.entries@) =~= cse_scan(model.take(0)).rename);
    while i < assigns.len()
        invariant
            i <= assigns@.len(),
            model == crate::ir::assigns_view(assigns@),
            forall|j: int| 0 <= j < seen@.len() ==> #[trigger] seen@[j] < assigns@.len(),
            seen_model(assigns@, seen@) == cse_scan(model.take(i as int)).seen,
            super::subst::entries_of(rename.entries@) == cse_scan(model.take(i as int)).rename,
        decreases assigns@.len() - i,
    {
        assert(model.take(i + 1).drop_last() == model.take(i as int));
        assert(model.take(i + 1).last() == assigns@[i as int]@);
        if !matches!(assigns[i].rhs, IrExpr::Const(_) | IrExpr::Ident(_)) {
            match find_match(assigns, &seen, i) {
                Some(k) => {
                    rename.insert(
                        assigns[i].lhs.clone(),
                        IrExpr::Ident(assigns[k].lhs.clone()),
                    );
                },
                None => {
                    let ghost before = seen@;
                    seen.push(i);
                    assert(seen_model(assigns@, seen@) =~= seen_model(assigns@, before).push(
                        (assigns@[i as int].rhs@, assigns@[i as int].lhs@),
                    ));
                },
            }
        }
        i = i + 1;
    }
    assert(model.take(i as int) == model);
    substitute_assigns(assigns, &rename, false)
}

} // verus!
