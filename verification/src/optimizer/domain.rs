//! Two-state inference: which signals can only carry 0 and 1.
use crate::ir::{AssignM, ExprM, IrAssign, IrExpr};
use crate::text::str_eq;
use vstd::prelude::*;

verus! {

/// Values that a signal can carry.
#[derive(Debug, Clone, Copy, PartialEq, Eq, Structural)]
pub enum ValueDomain {
    /// Only 0 or 1.
    TwoState,
    /// Possibly x or z.
    FourState,
}

/// Known domains by signal name, one entry per name.
#[derive(Debug)]
pub struct DomainMap {
    entries: Vec<(String, ValueDomain)>,
}

impl View for DomainMap {
    type V = Map<Seq<char>, ValueDomain>;

    closed spec fn view(&self) -> Map<Seq<char>, ValueDomain> {
        domains_of(self.entries@)
    }
}

/// The map that a list of entries stands for: the last entry of a name counts.
spec fn domains_of(s: Seq<(String, ValueDomain)>) -> Map<Seq<char>, ValueDomain>
    decreases s.len(),
{
    if s.len() == 0 {
        Map::empty()
    } else {
        domains_of(s.drop_last()).insert(s.last().0@, s.last().1)
    }
}

impl DomainMap {
    pub fn new() -> (r: Self)
        ensures
            r@ == Map::<Seq<char>, ValueDomain>::empty(),
    {
        DomainMap { entries: Vec::new() }
    }

    pub fn get(&self, name: &str) -> (r: Option<ValueDomain>)
        ensures
            match r {
                Some(d) => self@.contains_key(name@) && self@[name@] == d,
                None => !self@.contains_key(name@),
            },
    {
        let mut n: usize = self.entries.len();
        assert(self.entries@.take(n as int) == self.entries@);
        while n > 0
            invariant
                n <= self.entries@.len(),
                domains_of(self.entries@.take(n as int)).contains_key(name@)
                    <==> self@.contains_key(name@),
                self@.contains_key(name@) ==> domains_of(self.entries@.take(n as int))[name@]
                    == self@[name@],
            decreases n,
        {
            assert(self.entries@.take(n as int).drop_last() == self.entries@.take(n - 1));
            assert(self.entries@.take(n as int).last() == self.entries@[n - 1]);
            if str_eq(self.entries[n - 1].0.as_str(), name) {
                return Some(self.entries[n - 1].1);
            }
            n = n - 1;
        }
        assert(self.entries@.take(0) =~= Seq::empty());
        None
    }

    pub fn insert(&mut self, name: String, domain: ValueDomain)
        ensures
            final(self)@ == old(self)@.insert(name@, domain),
    {
        self.entries.push((name, domain));
        assert(self.entries@.drop_last() == old(self).entries@);
    }
}

/// Every identifier that the expression reads is known to be two-state.
pub open spec fn reads_two_state(e: ExprM, m: Map<Seq<char>, ValueDomain>) -> bool {
    forall|n: Seq<char>| #[trigger]
        super::subst::reads(e).contains(n) ==> m.contains_key(n) && m[n] == ValueDomain::TwoState
}

/// The domain of an expression: two-state where everything it reads is.
pub open spec fn domain_of(e: ExprM, m: Map<Seq<char>, ValueDomain>) -> ValueDomain {
    if reads_two_state(e, m) {
        ValueDomain::TwoState
    } else {
        ValueDomain::FourState
    }
}

fn both(a: ValueDomain, b: ValueDomain) -> (r: ValueDomain)
    ensures
        r == if a == ValueDomain::TwoState && b == ValueDomain::TwoState {
            ValueDomain::TwoState
        } else {
            ValueDomain::FourState
        },
{
    if a == ValueDomain::TwoState && b == ValueDomain::TwoState {
        ValueDomain::TwoState
    } else {
        ValueDomain::FourState
    }
}

proof fn lemma_two_state_union(
    whole: Set<Seq<char>>,
    a: Set<Seq<char>>,
    b: Set<Seq<char>>,
    m: Map<Seq<char>, ValueDomain>,
)
    requires
        whole == a.union(b),
    ensures
        (forall|n: Seq<char>| #[trigger]
            whole.contains(n) ==> m.contains_key(n) && m[n] == ValueDomain::TwoState) <==> (forall|
            n: Seq<char>,
        | #[trigger]
            a.contains(n) ==> m.contains_key(n) && m[n] == ValueDomain::TwoState) && (forall|
            n: Seq<char>,
        | #[trigger]
            b.contains(n) ==> m.contains_key(n) && m[n] == ValueDomain::TwoState),
{
    assert forall|n: Seq<char>| a.contains(n) || b.contains(n) implies whole.contains(n) by {}
    assert forall|n: Seq<char>| #[trigger] whole.contains(n) implies a.contains(n) || b.contains(
        n,
    ) by {}
}

/// Domain of an expression under the known domains.
pub fn infer_domain(expr: &IrExpr, map: &DomainMap) -> (r: ValueDomain)
    ensures
        r == domain_of(expr@, map@),
    decreases expr,
{
    proof {
        reveal_with_fuel(super::subst::reads, 2);
        reveal_with_fuel(super::subst::reads_all, 2);
    }
    match expr {
        IrExpr::Const(_) => ValueDomain::TwoState,
        IrExpr::Ident(name) => {
            assert(super::subst::reads(expr@).contains(name@));
            match map.get(name.as_str()) {
                Some(d) => d,
                None => ValueDomain::FourState,
            }
        },
        IrExpr::Binary { left, right, .. } => {
            let l = infer_domain(left, map);
            let r = infer_domain(right, map);
            proof {
                lemma_two_state_union(
                    super::subst::reads(expr@),
                    super::subst::reads(left@),
                    super::subst::reads(right@),
                    map@,
                );
            }
            both(l, r)
        },
        IrExpr::Unary { operand, .. } => {
            assert(super::subst::reads(expr@) == super::subst::reads(operand@));
            infer_domain(operand, map)
        },
        IrExpr::Signed(operand) => {
            assert(super::subst::reads(expr@) == super::subst::reads(operand@));
            infer_domain(operand, map)
        },
        IrExpr::Ternary { cond, then_expr, else_expr } => {
            let c = infer_domain(cond, map);
            let t = infer_domain(then_expr, map);
            let e = infer_domain(else_expr, map);
            proof {
                let ct = super::subst::reads(cond@).union(super::subst::reads(then_expr@));
                lemma_two_state_union(
                    ct,
                    super::subst::reads(cond@),
                    super::subst::reads(then_expr@),
                    map@,
                );
                lemma_two_state_union(
                    super::subst::reads(expr@),
                    ct,
                    super::subst::reads(else_expr@),
                    map@,
                );
            }
            both(both(c, t), e)
        },
        IrExpr::Concat(exprs) => {
            let ghost model = crate::ir::exprs_view(exprs@);
            let mut all = ValueDomain::TwoState;
            let mut i: usize = 0;
            while i < exprs.len()
                invariant
                    i <= exprs@.len(),
                    model == crate::ir::exprs_view(exprs@),
                    all == domain_of(ExprM::Concat(model.take(i as int)), map@),
                    expr@ == ExprM::Concat(model),
                    decreases_to!(expr => exprs@),
                decreases exprs@.len() - i,
            {
                assert(decreases_to!(exprs@ => exprs@[i as int]));
                assert(model.take(i + 1).drop_last() == model.take(i as int));
                assert(model.take(i + 1).last() == exprs@[i as int]@);
                let d = infer_domain(&exprs[i], map);
                proof {
                    reveal_with_fuel(super::subst::reads, 2);
                    reveal_with_fuel(super::subst::reads_all, 2);
                    lemma_two_state_union(
                        super::subst::reads(ExprM::Concat(model.take(i + 1))),
                        super::subst::reads(ExprM::Concat(model.take(i as int))),
                        super::subst::reads(exprs@[i as int]@),
                        map@,
                    );
                }
                all = both(all, d);
                i = i + 1;
            }
            assert(model.take(i as int) == model);
            all
        },
        IrExpr::PartSelect { value, msb, lsb } => {
            let v = infer_domain(value, map);
            let m1 = infer_domain(msb, map);
            let m2 = infer_domain(lsb, map);
            proof {
                let vm = super::subst::reads(value@).union(super::subst::reads(msb@));
                lemma_two_state_union(
                    vm,
                    super::subst::reads(value@),
                    super::subst::reads(msb@),
                    map@,
                );
                lemma_two_state_union(
                    super::subst::reads(expr@),
                    vm,
                    super::subst::reads(lsb@),
                    map@,
                );
            }
            both(both(v, m1), m2)
        },
        IrExpr::MemRead { index, .. } => {
            assert(super::subst::reads(expr@) == super::subst::reads(index@));
            infer_domain(index, map)
        },
    }
}

/// Some assign drives `n`.
pub open spec fn assigned(s: Seq<AssignM>, n: Seq<char>) -> bool {
    exists|i: int| 0 <= i < s.len() && (#[trigger] s[i]).lhs == n
}

/// Every assign that drives `n` reads only names of `t`.
pub open spec fn driven_within(s: Seq<AssignM>, n: Seq<char>, t: Set<Seq<char>>) -> bool {
    forall|i: int|
        0 <= i < s.len() && (#[trigger] s[i]).lhs == n ==> super::subst::reads(s[i].rhs).subset_of(
            t,
        )
}

/// `t` holds every assigned name all of whose assigns read only names of `t`.
pub open spec fn closed_under(s: Seq<AssignM>, t: Set<Seq<char>>) -> bool {
    forall|n: Seq<char>| #[trigger]
        assigned(s, n) && driven_within(s, n, t) ==> t.contains(n)
}

/// The names that `m` says are two-state.
pub open spec fn two_state_names(m: Map<Seq<char>, ValueDomain>) -> Set<Seq<char>> {
    Set::new(|n: Seq<char>| m.contains_key(n) && m[n] == ValueDomain::TwoState)
}

/// `m` is the result of the inference over `s`: it knows exactly the assigned names, and
/// its two-state names are the smallest set that is closed under the assigns.
pub open spec fn is_inferred(s: Seq<AssignM>, m: Map<Seq<char>, ValueDomain>) -> bool {
    &&& forall|n: Seq<char>| #[trigger] m.contains_key(n) <==> assigned(s, n)
    &&& closed_under(s, two_state_names(m))
    &&& forall|t: Set<Seq<char>>| #[trigger]
        closed_under(s, t) ==> two_state_names(m).subset_of(t)
}

/// Number of assigns of names that are not known to be two-state.
spec fn undecided(s: Seq<AssignM>, m: Map<Seq<char>, ValueDomain>) -> nat
    decreases s.len(),
{
    if s.len() == 0 {
        0
    } else {
        undecided(s.drop_last(), m) + if two_state_names(m).contains(s.last().lhs) {
            0nat
        } else {
            1nat
        }
    }
}

proof fn lemma_undecided(s: Seq<AssignM>, m: Map<Seq<char>, ValueDomain>, n: Seq<char>)
    ensures
        undecided(s, m.insert(n, ValueDomain::TwoState)) <= undecided(s, m),
        assigned(s, n) && !two_state_names(m).contains(n) ==> undecided(
            s,
            m.insert(n, ValueDomain::TwoState),
        ) < undecided(s, m),
    decreases s.len(),
{
    if s.len() > 0 {
        lemma_undecided(s.drop_last(), m, n);
        if s.last().lhs != n && assigned(s, n) {
            let i = choose|i: int| 0 <= i < s.len() && (#[trigger] s[i]).lhs == n;
            assert(s.drop_last()[i].lhs == n);
        }
    }
}

/// Every assign that drives `n` is two-state under `m`.
spec fn all_two_state(s: Seq<AssignM>, n: Seq<char>, m: Map<Seq<char>, ValueDomain>) -> bool {
    forall|i: int|
        0 <= i < s.len() && (#[trigger] s[i]).lhs == n ==> domain_of(s[i].rhs, m)
            == ValueDomain::TwoState
}

proof fn lemma_one_more(
    s: Seq<AssignM>,
    i: int,
    n: Seq<char>,
    m: Map<Seq<char>, ValueDomain>,
)
    requires
        0 <= i < s.len(),
    ensures
        assigned(s.take(i + 1), n) <==> assigned(s.take(i), n) || s[i].lhs == n,
        all_two_state(s.take(i + 1), n, m) <==> all_two_state(s.take(i), n, m) && (s[i].lhs == n
            ==> domain_of(s[i].rhs, m) == ValueDomain::TwoState),
{
    let a = s.take(i);
    let b = s.take(i + 1);
    assert(b[i] == s[i]);
    assert forall|k: int| 0 <= k < i implies #[trigger] a[k] == #[trigger] b[k] by {}
    if assigned(b, n) {
        let k = choose|k: int| 0 <= k < b.len() && (#[trigger] b[k]).lhs == n;
        if k < i {
            assert(a[k].lhs == n);
        }
    }
    if assigned(a, n) {
        let k = choose|k: int| 0 <= k < a.len() && (#[trigger] a[k]).lhs == n;
        assert(b[k].lhs == n);
    }
    if all_two_state(b, n, m) {
        assert forall|k: int| 0 <= k < a.len() && (#[trigger] a[k]).lhs == n implies domain_of(
            a[k].rhs,
            m,
        ) == ValueDomain::TwoState by {
            assert(b[k].lhs == n);
        }
    }
    if all_two_state(a, n, m) && (s[i].lhs == n ==> domain_of(s[i].rhs, m)
        == ValueDomain::TwoState) {
        assert forall|k: int| 0 <= k < b.len() && (#[trigger] b[k]).lhs == n implies domain_of(
            b[k].rhs,
            m,
        ) == ValueDomain::TwoState by {
            if k < i {
                assert(a[k].lhs == n);
            }
        }
    }
}

/// The domain of every assigned signal, where those of the names that it reads are `map`:
/// two-state if all its assigns are.
fn driven_domains(assigns: &Vec<IrAssign>, map: &DomainMap) -> (next: DomainMap)
    ensures
        ({
            let s = crate::ir::assigns_view(assigns@);
            &&& forall|n: Seq<char>| #[trigger] next@.contains_key(n) <==> assigned(s, n)
            &&& forall|n: Seq<char>| #[trigger]
                next@.contains_key(n) ==> (next@[n] == ValueDomain::TwoState <==> all_two_state(
                    s,
                    n,
                    map@,
                ))
        }),
{
    let ghost s = crate::ir::assigns_view(assigns@);
    let mut next = DomainMap::new();
    let mut i: usize = 0;
    while i < assigns.len()
        invariant
            i <= assigns@.len(),
            s == crate::ir::assigns_view(assigns@),
            forall|n: Seq<char>| #[trigger]
                next@.contains_key(n) <==> assigned(s.take(i as int), n),
            forall|n: Seq<char>| #[trigger]
                next@.contains_key(n) ==> (next@[n] == ValueDomain::TwoState <==> all_two_state(
                    s.take(i as int),
                    n,
                    map@,
                )),
        decreases assigns@.len() - i,
    {
        let a = &assigns[i];
        assert(s[i as int] == a@);
        let ghost before = next@;
        let d = infer_domain(&a.rhs, map);
        let joint = match next.get(a.lhs.as_str()) {
            Some(had) => both(had, d),
            None => d,
        };
        next.insert(a.lhs.clone(), joint);
        proof {
            assert forall|n: Seq<char>| #[trigger]
                next@.contains_key(n) <==> assigned(s.take(i + 1), n) by {
                lemma_one_more(s, i as int, n, map@);
                assert(before.contains_key(n) <==> assigned(s.take(i as int), n));
            }
            assert forall|n: Seq<char>| #[trigger] next@.contains_key(n) implies (next@[n]
                == ValueDomain::TwoState <==> all_two_state(s.take(i + 1), n, map@)) by {
                lemma_one_more(s, i as int, n, map@);
                if before.contains_key(n) {
                } else {
                    assert(!assigned(s.take(i as int), n));
                    assert(all_two_state(s.take(i as int), n, map@));
                }
            }
        }
        i = i + 1;
    }
    assert(s.take(i as int) == s);
    next
}

/// A name whose assigns are all two-state under `m` is in every closed set that holds the
/// two-state names of `m`.
proof fn lemma_decided(
    s: Seq<AssignM>,
    n: Seq<char>,
    m: Map<Seq<char>, ValueDomain>,
    t: Set<Seq<char>>,
)
    requires
        assigned(s, n),
        all_two_state(s, n, m),
        two_state_names(m).subset_of(t),
    ensures
        driven_within(s, n, t),
        closed_under(s, t) ==> t.contains(n),
{
    assert forall|i: int| 0 <= i < s.len() && (#[trigger] s[i]).lhs == n implies super::subst::reads(
        s[i].rhs,
    ).subset_of(t) by {
        assert forall|x: Seq<char>| super::subst::reads(s[i].rhs).contains(x) implies t.contains(
            x,
        ) by {
            assert(two_state_names(m).contains(x));
        }
    }
}

/// Infers the domain of every assigned signal. A signal is two-state where all its assigns
/// read only two-state signals.
pub fn infer_value_domains(assigns: &Vec<IrAssign>) -> (map: DomainMap)
    ensures
        is_inferred(crate::ir::assigns_view(assigns@), map@),
{
    let ghost s = crate::ir::assigns_view(assigns@);
    let none = DomainMap::new();
    // Before anything is known, only signals that read nothing are two-state.
    let mut map = driven_domains(assigns, &none);
    proof {
        assert forall|t: Set<Seq<char>>| #[trigger]
            closed_under(s, t) implies two_state_names(map@).subset_of(t) by {
            assert forall|n: Seq<char>| two_state_names(map@).contains(n) implies t.contains(
                n,
            ) by {
                assert(map@.contains_key(n));
                assert(two_state_names(none@).subset_of(t));
                lemma_decided(s, n, none@, t);
            }
        }
    }
    let mut changed = true;
    while changed
        invariant
            s == crate::ir::assigns_view(assigns@),
            forall|n: Seq<char>| #[trigger] map@.contains_key(n) <==> assigned(s, n),
            forall|t: Set<Seq<char>>| #[trigger]
                closed_under(s, t) ==> two_state_names(map@).subset_of(t),
            !changed ==> forall|i: int|
                0 <= i < s.len() && all_two_state(s, (#[trigger] s[i]).lhs, map@)
                    ==> two_state_names(map@).contains(s[i].lhs),
        decreases undecided(s, map@), changed as int,
    {
        let ghost start = map@;
        let next = driven_domains(assigns, &map);
        changed = false;
        let mut i: usize = 0;
        while i < assigns.len()
            invariant
                i <= assigns@.len(),
                s == crate::ir::assigns_view(assigns@),
                forall|n: Seq<char>| #[trigger] next@.contains_key(n) <==> assigned(s, n),
                forall|n: Seq<char>| #[trigger]
                    next@.contains_key(n) ==> (next@[n] == ValueDomain::TwoState
                        <==> all_two_state(s, n, start)),
                forall|n: Seq<char>| #[trigger] map@.contains_key(n) <==> assigned(s, n),
                forall|t: Set<Seq<char>>| #[trigger]
                    closed_under(s, t) ==> two_state_names(map@).subset_of(t),
                forall|t: Set<Seq<char>>| #[trigger]
                    closed_under(s, t) ==> two_state_names(start).subset_of(t),
                undecided(s, map@) <= undecided(s, start),
                changed ==> undecided(s, map@) < undecided(s, start),
                !changed ==> map@ == start,
                !changed ==> forall|j: int|
                    0 <= j < i && all_two_state(s, (#[trigger] s[j]).lhs, start)
                        ==> two_state_names(start).contains(s[j].lhs),
            decreases assigns@.len() - i,
        {
            let a = &assigns[i];
            assert(s[i as int] == a@);
            assert(assigned(s, a.lhs@));
            assert(next@.contains_key(a.lhs@));
            assert(map@.contains_key(a.lhs@));
            let now = next.get(a.lhs.as_str());
            let had = map.get(a.lhs.as_str());
            if now == Some(ValueDomain::TwoState) && had != Some(ValueDomain::TwoState) {
                let ghost before = map@;
                map.insert(a.lhs.clone(), ValueDomain::TwoState);
                changed = true;
                proof {
                    lemma_undecided(s, before, a.lhs@);
                    assert forall|t: Set<Seq<char>>| #[trigger]
                        closed_under(s, t) implies two_state_names(map@).subset_of(t) by {
                        lemma_decided(s, a.lhs@, start, t);
                        assert forall|n: Seq<char>|
                            two_state_names(map@).contains(n) implies t.contains(n) by {
                            if n != a.lhs@ {
                                assert(two_state_names(before).contains(n));
                            }
                        }
                    }
                    assert forall|n: Seq<char>| #[trigger]
                        map@.contains_key(n) <==> assigned(s, n) by {
                        assert(before.contains_key(n) <==> assigned(s, n));
                    }
                }
            }
            i = i + 1;
        }
    }
    proof {
        let t = two_state_names(map@);
        assert forall|n: Seq<char>| #[trigger]
            assigned(s, n) && driven_within(s, n, t) implies t.contains(n) by {
            let i = choose|i: int| 0 <= i < s.len() && (#[trigger] s[i]).lhs == n;
            assert forall|k: int| 0 <= k < s.len() && (#[trigger] s[k]).lhs == n implies domain_of(
                s[k].rhs,
                map@,
            ) == ValueDomain::TwoState by {
                assert forall|x: Seq<char>| #[trigger]
                    super::subst::reads(s[k].rhs).contains(x) implies map@.contains_key(x)
                    && map@[x] == ValueDomain::TwoState by {
                    assert(t.contains(x));
                }
            }
            assert(all_two_state(s, s[i].lhs, map@));
        }
    }
    map
}

/// Two-state pass over the assigns. The inference feeds no rewrite of its own: guards on
/// two-state signals are left to the algebraic rules, so nothing changes and the count
/// is zero.
pub fn four_value_simplification(assigns: &mut Vec<IrAssign>) -> (count: usize)
    ensures
        final(assigns)@ == old(assigns)@,
        count == 0,
{
    let map = infer_value_domains(assigns);
    let mut total: usize = 0;
    let mut i: usize = 0;
    while i < assigns.len()
        invariant
            i <= assigns@.len(),
            total == 0,
            assigns@ == old(assigns)@,
        decreases assigns@.len() - i,
    {
        total = total + simplify_xz_guards(&assigns[i].rhs, &map);
        i = i + 1;
    }
    total
}

/// Number of guards rewritten under the known domains: none.
fn simplify_xz_guards(_expr: &IrExpr, _validity: &DomainMap) -> (count: usize)
    ensures
        count == 0,
{
    0
}

} // verus!
