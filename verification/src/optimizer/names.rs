//! Which names a module uses, and removal of assigns to names that nothing uses.
use crate::ir::{IrExpr, IrModule, IrStmt, SpannedM, StmtBlock, StmtM};
use crate::text::{chars_of, str_eq};
use vstd::prelude::*;

verus! {

/// A set of names.
#[derive(Debug)]
pub struct NameSet {
    names: Vec<String>,
}

impl View for NameSet {
    type V = Set<Seq<char>>;

    closed spec fn view(&self) -> Set<Seq<char>> {
        Set::new(|n: Seq<char>| exists|i: int| 0 <= i < self.names@.len() && self.names@[i]@ == n)
    }
}

impl NameSet {
    pub fn new() -> (r: Self)
        ensures
            r@ == Set::<Seq<char>>::empty(),
    {
        let r = NameSet { names: Vec::new() };
        assert(r@ =~= Set::<Seq<char>>::empty());
        r
    }

    pub fn contains(&self, name: &str) -> (r: bool)
        ensures
            r == self@.contains(name@),
    {
        let mut i: usize = 0;
        while i < self.names.len()
            invariant
                i <= self.names@.len(),
                forall|j: int| 0 <= j < i ==> self.names@[j]@ != name@,
            decreases self.names@.len() - i,
        {
            if str_eq(self.names[i].as_str(), name) {
                return true;
            }
            i = i + 1;
        }
        false
    }

    pub fn insert(&mut self, name: &String)
        ensures
            final(self)@ == old(self)@.insert(name@),
    {
        if !self.contains(name.as_str()) {
            let ghost before = self.names@;
            self.names.push(name.clone());
            proof {
                assert forall|n: Seq<char>| self@.contains(n) <==> old(self)@.insert(
                    name@,
                ).contains(n) by {
                    if old(self)@.contains(n) {
                        let i = choose|i: int| 0 <= i < before.len() && before[i]@ == n;
                        assert(self.names@[i]@ == n);
                    }
                    if n == name@ {
                        assert(self.names@[before.len() as int]@ == n);
                    }
                    if self@.contains(n) {
                        let i = choose|i: int| 0 <= i < self.names@.len() && self.names@[i]@ == n;
                        if i < before.len() {
                            assert(before[i]@ == n);
                        }
                    }
                }
            }
        }
        assert(self@ =~= old(self)@.insert(name@));
    }

    /// Whether some name of the set followed by two underscores begins `text`.
    fn prefixes(&self, text: &str) -> (r: bool)
        ensures
            r == scoped_under(text@, self@),
    {
        let chars = chars_of(text);
        let mut i: usize = 0;
        while i < self.names.len()
            invariant
                i <= self.names@.len(),
                chars@ == text@,
                forall|j: int| 0 <= j < i ==> !is_scope_of(#[trigger] self.names@[j]@, text@),
            decreases self.names@.len() - i,
        {
            if scope_prefix(&chars, self.names[i].as_str()) {
                assert(self@.contains(self.names@[i as int]@));
                return true;
            }
            i = i + 1;
        }
        assert forall|s: Seq<char>| self@.contains(s) implies !is_scope_of(s, text@) by {
            let j = choose|j: int| 0 <= j < self.names@.len() && self.names@[j]@ == s;
            assert(!is_scope_of(self.names@[j]@, text@));
        }
        false
    }
}

/// `text` begins with `s` and two underscores.
pub open spec fn is_scope_of(s: Seq<char>, text: Seq<char>) -> bool {
    s.len() + 2 <= text.len() && text.take(s.len() as int) == s && text[s.len() as int] == '_'
        && text[s.len() as int + 1] == '_'
}

/// Some name of `used`, followed by two underscores, begins `text`.
pub open spec fn scoped_under(text: Seq<char>, used: Set<Seq<char>>) -> bool {
    exists|s: Seq<char>| #[trigger] used.contains(s) && is_scope_of(s, text)
}

fn scope_prefix(text: &Vec<char>, name: &str) -> (r: bool)
    ensures
        r == is_scope_of(name@, text@),
{
    let s = chars_of(name);
    if text.len() < 2 || s.len() > text.len() - 2 {
        return false;
    }
    let mut i: usize = 0;
    while i < s.len()
        invariant
            i <= s@.len(),
            s@ == name@,
            s@.len() + 2 <= text@.len(),
            text@.take(i as int) == s@.take(i as int),
        decreases s@.len() - i,
    {
        assert(text@.take(i + 1) == text@.take(i as int).push(text@[i as int]));
        assert(s@.take(i + 1) == s@.take(i as int).push(s@[i as int]));
        if text[i] != s[i] {
            assert(text@.take(s@.len() as int)[i as int] != s@[i as int]);
            return false;
        }
        i = i + 1;
    }
    assert(s@.take(i as int) == s@);
    text[i] == '_' && text[i + 1] == '_'
}

/// Adds every name that an expression mentions.
pub fn collect_idents(expr: &IrExpr, set: &mut NameSet)
    ensures
        final(set)@ == old(set)@.union(super::subst::idents(expr@)),
    decreases expr,
{
    match expr {
        IrExpr::Const(_) => {},
        IrExpr::Ident(name) => {
            set.insert(name);
        },
        IrExpr::Binary { left, right, .. } => {
            collect_idents(left, set);
            collect_idents(right, set);
        },
        IrExpr::Unary { operand, .. } => {
            collect_idents(operand, set);
        },
        IrExpr::Signed(operand) => {
            collect_idents(operand, set);
        },
        IrExpr::Ternary { cond, then_expr, else_expr } => {
            collect_idents(cond, set);
            collect_idents(then_expr, set);
            collect_idents(else_expr, set);
        },
        IrExpr::Concat(exprs) => {
            collect_idents_all(exprs, set);
        },
        IrExpr::PartSelect { value, msb, lsb } => {
            collect_idents(value, set);
            collect_idents(msb, set);
            collect_idents(lsb, set);
        },
        IrExpr::MemRead { stem, index } => {
            set.insert(stem);
            collect_idents(index, set);
        },
    }
    assert(set@ =~= old(set)@.union(super::subst::idents(expr@)));
}

fn collect_idents_all(exprs: &Vec<IrExpr>, set: &mut NameSet)
    ensures
        final(set)@ == old(set)@.union(
            super::subst::idents_all(crate::ir::exprs_view(exprs@)),
        ),
    decreases exprs,
{
    let ghost model = crate::ir::exprs_view(exprs@);
    let mut i: usize = 0;
    assert(set@ =~= old(set)@.union(super::subst::idents_all(model.take(0))));
    while i < exprs.len()
        invariant
            i <= exprs@.len(),
            model == crate::ir::exprs_view(exprs@),
            set@ == old(set)@.union(super::subst::idents_all(model.take(i as int))),
        decreases exprs@.len() - i,
    {
        assert(decreases_to!(exprs => exprs@));
        assert(decreases_to!(exprs@ => exprs@[i as int]));
        assert(model.take(i + 1).drop_last() == model.take(i as int));
        assert(model.take(i + 1).last() == exprs@[i as int]@);
        collect_idents(&exprs[i], set);
        assert(set@ =~= old(set)@.union(super::subst::idents_all(model.take(i + 1))));
        i = i + 1;
    }
    assert(model.take(i as int) == model);
}

/// The names that a statement mentions: targets and everything in its expressions. The
/// variables of a `for` header are not targets.
pub open spec fn stmt_idents(s: StmtM) -> Set<Seq<char>>
    decreases s,
{
    match s {
        StmtM::BlockingAssign { lhs, rhs } => super::subst::idents(rhs).insert(lhs),
        StmtM::NonBlockingAssign { lhs, rhs } => super::subst::idents(rhs).insert(lhs),
        StmtM::MemAssign { stem, index, rhs, nonblocking } => super::subst::idents(index).union(
            super::subst::idents(rhs),
        ).insert(stem),
        StmtM::IfElse { cond, then_body, else_body } => super::subst::idents(cond).union(
            block_idents(then_body),
        ).union(block_idents(else_body)),
        StmtM::Case { expr, arms, default } => super::subst::idents(expr).union(
            arms_idents(arms),
        ).union(block_idents(default)),
        StmtM::For { init_var, init_val, cond, step_var, step_expr, body } => super::subst::idents(
            init_val,
        ).union(super::subst::idents(cond)).union(super::subst::idents(step_expr)).union(
            block_idents(body),
        ),
        StmtM::Delay(_) => Set::empty(),
        StmtM::SystemTask { name, args } => super::subst::idents_all(args),
    }
}

pub open spec fn block_idents(b: Seq<SpannedM>) -> Set<Seq<char>>
    decreases b,
{
    if b.len() == 0 {
        Set::empty()
    } else {
        block_idents(b.drop_last()).union(stmt_idents(b.last().stmt))
    }
}

pub open spec fn arms_idents(arms: Seq<crate::ir::CaseArmM>) -> Set<Seq<char>>
    decreases arms,
{
    if arms.len() == 0 {
        Set::empty()
    } else {
        arms_idents(arms.drop_last()).union(super::subst::idents(arms.last().value)).union(
            block_idents(arms.last().body),
        )
    }
}

fn collect_idents_in_stmt(stmt: &IrStmt, set: &mut NameSet)
    ensures
        final(set)@ == old(set)@.union(stmt_idents(stmt@)),
    decreases stmt,
{
    match stmt {
        IrStmt::BlockingAssign { lhs, rhs } => {
            set.insert(lhs);
            collect_idents(rhs, set);
        },
        IrStmt::NonBlockingAssign { lhs, rhs } => {
            set.insert(lhs);
            collect_idents(rhs, set);
        },
        IrStmt::MemAssign { stem, index, rhs, .. } => {
            set.insert(stem);
            collect_idents(index, set);
            collect_idents(rhs, set);
        },
        IrStmt::IfElse { cond, then_body, else_body } => {
            collect_idents(cond, set);
            collect_idents_in_stmts(then_body, set);
            collect_idents_in_stmts(else_body, set);
        },
        IrStmt::Case { expr, arms, default } => {
            collect_idents(expr, set);
            let ghost start = set@;
            let ghost model = crate::ir::arms_view(arms@);
            let mut i: usize = 0;
            assert(set@ =~= start.union(arms_idents(model.take(0))));
            while i < arms.len()
                invariant
                    i <= arms@.len(),
                    model == crate::ir::arms_view(arms@),
                    set@ == start.union(arms_idents(model.take(i as int))),
                    decreases_to!(stmt => arms@),
                decreases arms@.len() - i,
            {
                assert(decreases_to!(arms@ => arms@[i as int]));
                assert(model.take(i + 1).drop_last() == model.take(i as int));
                assert(model.take(i + 1).last() == arms@[i as int]@);
                let arm = &arms[i];
                collect_idents(&arm.value, set);
                collect_idents_in_stmts(&arm.body, set);
                assert(set@ =~= start.union(arms_idents(model.take(i + 1))));
                i = i + 1;
            }
            assert(model.take(i as int) == model);
            collect_idents_in_stmts(default, set);
        },
        IrStmt::For { init_val, cond, step_expr, body, .. } => {
            collect_idents(init_val, set);
            collect_idents(cond, set);
            collect_idents(step_expr, set);
            collect_idents_in_stmts(body, set);
        },
        IrStmt::Delay(_) => {},
        IrStmt::SystemTask { args, .. } => {
            collect_idents_all(args, set);
        },
    }
    assert(set@ =~= old(set)@.union(stmt_idents(stmt@)));
}

/// Adds every name that the statements of a block mention.
pub fn collect_idents_in_stmts(block: &StmtBlock, set: &mut NameSet)
    ensures
        final(set)@ == old(set)@.union(block_idents(block@)),
    decreases block,
{
    let mut i: usize = 0;
    assert(set@ =~= old(set)@.union(block_idents(block@.take(0))));
    while i < block.entries.len()
        invariant
            i <= block.entries@.len(),
            set@ == old(set)@.union(block_idents(block@.take(i as int))),
        decreases block.entries@.len() - i,
    {
        assert(decreases_to!(block => block.entries@));
        assert(decreases_to!(block.entries@ => block.entries@[i as int]));
        assert(block@.take(i + 1).drop_last() == block@.take(i as int));
        assert(block@.take(i + 1).last() == block.entries@[i as int]@);
        collect_idents_in_stmt(&block.entries[i].stmt, set);
        assert(set@ =~= old(set)@.union(block_idents(block@.take(i + 1))));
        i = i + 1;
    }
    assert(block@.take(i as int) == block@);
}

/// The names that the right-hand sides of the assigns mention.
pub open spec fn assigns_reads(s: Seq<crate::ir::AssignM>) -> Set<Seq<char>>
    decreases s.len(),
{
    if s.len() == 0 {
        Set::empty()
    } else {
        assigns_reads(s.drop_last()).union(super::subst::idents(s.last().rhs))
    }
}

pub open spec fn always_idents(s: Seq<crate::ir::IrAlways>) -> Set<Seq<char>>
    decreases s.len(),
{
    if s.len() == 0 {
        Set::empty()
    } else {
        always_idents(s.drop_last()).union(block_idents(s.last().stmts@))
    }
}

pub open spec fn initial_idents(s: Seq<crate::ir::IrInitial>) -> Set<Seq<char>>
    decreases s.len(),
{
    if s.len() == 0 {
        Set::empty()
    } else {
        initial_idents(s.drop_last()).union(block_idents(s.last().stmts@))
    }
}

pub open spec fn conns_idents(s: Seq<crate::ir::IrPortConn>) -> Set<Seq<char>>
    decreases s.len(),
{
    if s.len() == 0 {
        Set::empty()
    } else {
        conns_idents(s.drop_last()).union(super::subst::idents(s.last().expr@))
    }
}

pub open spec fn instances_idents(s: Seq<crate::ir::IrInstance>) -> Set<Seq<char>>
    decreases s.len(),
{
    if s.len() == 0 {
        Set::empty()
    } else {
        instances_idents(s.drop_last()).union(conns_idents(s.last().connections@))
    }
}

/// What a module declares and uses apart from its assigns.
pub ghost struct Surroundings {
    pub declared: Set<Seq<char>>,
    pub used: Set<Seq<char>>,
}

/// Names of a list of ports.
pub open spec fn port_names(s: Seq<crate::Port>) -> Set<Seq<char>> {
    Set::new(|n: Seq<char>| exists|i: int| 0 <= i < s.len() && (#[trigger] s[i]).name@ == n)
}

/// Names of a list of nets.
pub open spec fn net_names(s: Seq<crate::ir::IrNet>) -> Set<Seq<char>> {
    Set::new(|n: Seq<char>| exists|i: int| 0 <= i < s.len() && (#[trigger] s[i]).name@ == n)
}

pub open spec fn surroundings(m: IrModule) -> Surroundings {
    Surroundings {
        declared: port_names(m.ports@).union(net_names(m.nets@)),
        used: always_idents(m.always_blocks@).union(initial_idents(m.initial_blocks@)).union(
            instances_idents(m.instances@),
        ),
    }
}

/// The names that a module reads or drives outside the left-hand sides of its assigns.
pub open spec fn used_names(ctx: Surroundings, s: Seq<crate::ir::AssignM>) -> Set<Seq<char>> {
    assigns_reads(s).union(ctx.used)
}

/// An assign to `lhs` is kept: `lhs` is a port, a net, used, or scoped under a used name.
pub open spec fn is_live(
    ctx: Surroundings,
    s: Seq<crate::ir::AssignM>,
    lhs: Seq<char>,
) -> bool {
    ctx.declared.contains(lhs) || used_names(ctx, s).contains(lhs) || scoped_under(
        lhs,
        used_names(ctx, s),
    )
}

/// The live assigns, in order.
pub open spec fn live_assigns(ctx: Surroundings, s: Seq<crate::ir::AssignM>) -> Seq<
    crate::ir::AssignM,
> {
    s.filter(|a: crate::ir::AssignM| is_live(ctx, s, a.lhs))
}

fn is_declared(m: &IrModule, name: &str) -> (r: bool)
    ensures
        r == surroundings(*m).declared.contains(name@),
{
    let mut i: usize = 0;
    while i < m.ports.len()
        invariant
            i <= m.ports@.len(),
            forall|j: int| 0 <= j < i ==> (#[trigger] m.ports@[j]).name@ != name@,
        decreases m.ports@.len() - i,
    {
        if str_eq(m.ports[i].name.as_str(), name) {
            return true;
        }
        i = i + 1;
    }
    let mut k: usize = 0;
    while k < m.nets.len()
        invariant
            k <= m.nets@.len(),
            forall|j: int| 0 <= j < k ==> (#[trigger] m.nets@[j]).name@ != name@,
        decreases m.nets@.len() - k,
    {
        if str_eq(m.nets[k].name.as_str(), name) {
            return true;
        }
        k = k + 1;
    }
    false
}

fn collect_used(m: &IrModule) -> (used: NameSet)
    ensures
        used@ == used_names(surroundings(*m), crate::ir::assigns_view(m.assigns@)),
{
    let mut used = NameSet::new();
    let ghost model = crate::ir::assigns_view(m.assigns@);
    let mut i: usize = 0;
    assert(used@ =~= assigns_reads(model.take(0)));
    while i < m.assigns.len()
        invariant
            i <= m.assigns@.len(),
            model == crate::ir::assigns_view(m.assigns@),
            used@ == assigns_reads(model.take(i as int)),
        decreases m.assigns@.len() - i,
    {
        assert(model.take(i + 1).drop_last() == model.take(i as int));
        assert(model.take(i + 1).last() == m.assigns@[i as int]@);
        collect_idents(&m.assigns[i].rhs, &mut used);
        i = i + 1;
    }
    assert(model.take(i as int) == model);
    let ghost a = used@;
    let mut j: usize = 0;
    assert(used@ =~= a.union(always_idents(m.always_blocks@.take(0))));
    while j < m.always_blocks.len()
        invariant
            j <= m.always_blocks@.len(),
            used@ == a.union(always_idents(m.always_blocks@.take(j as int))),
        decreases m.always_blocks@.len() - j,
    {
        assert(m.always_blocks@.take(j + 1).drop_last() == m.always_blocks@.take(j as int));
        collect_idents_in_stmts(&m.always_blocks[j].stmts, &mut used);
        assert(used@ =~= a.union(always_idents(m.always_blocks@.take(j + 1))));
        j = j + 1;
    }
    assert(m.always_blocks@.take(j as int) == m.always_blocks@);
    let ghost b = used@;
    let mut k: usize = 0;
    assert(used@ =~= b.union(initial_idents(m.initial_blocks@.take(0))));
    while k < m.initial_blocks.len()
        invariant
            k <= m.initial_blocks@.len(),
            used@ == b.union(initial_idents(m.initial_blocks@.take(k as int))),
        decreases m.initial_blocks@.len() - k,
    {
        assert(m.initial_blocks@.take(k + 1).drop_last() == m.initial_blocks@.take(k as int));
        collect_idents_in_stmts(&m.initial_blocks[k].stmts, &mut used);
        assert(used@ =~= b.union(initial_idents(m.initial_blocks@.take(k + 1))));
        k = k + 1;
    }
    assert(m.initial_blocks@.take(k as int) == m.initial_blocks@);
    let ghost c = used@;
    let mut n: usize = 0;
    assert(used@ =~= c.union(instances_idents(m.instances@.take(0))));
    while n < m.instances.len()
        invariant
            n <= m.instances@.len(),
            used@ == c.union(instances_idents(m.instances@.take(n as int))),
        decreases m.instances@.len() - n,
    {
        assert(m.instances@.take(n + 1).drop_last() == m.instances@.take(n as int));
        let conns = &m.instances[n].connections;
        let ghost d = used@;
        let mut q: usize = 0;
        assert(used@ =~= d.union(conns_idents(conns@.take(0))));
        while q < conns.len()
            invariant
                q <= conns@.len(),
                used@ == d.union(conns_idents(conns@.take(q as int))),
            decreases conns@.len() - q,
        {
            assert(conns@.take(q + 1).drop_last() == conns@.take(q as int));
            collect_idents(&conns[q].expr, &mut used);
            assert(used@ =~= d.union(conns_idents(conns@.take(q + 1))));
            q = q + 1;
        }
        assert(conns@.take(q as int) == conns@);
        assert(used@ =~= c.union(instances_idents(m.instances@.take(n + 1))));
        n = n + 1;
    }
    assert(m.instances@.take(n as int) == m.instances@);
    assert(used@ =~= used_names(surroundings(*m), model));
    used
}

/// Drops the assigns whose left-hand side is dead, and says how many.
pub fn dead_signal_elimination(module: &mut IrModule) -> (count: usize)
    ensures
        crate::ir::assigns_view(final(module).assigns@) == live_assigns(
            surroundings(*old(module)),
            crate::ir::assigns_view(old(module).assigns@),
        ),
        *final(module) == (IrModule { assigns: final(module).assigns, ..*old(module) }),
        count == old(module).assigns@.len() - final(module).assigns@.len(),
{
    let used = collect_used(module);
    let before: usize = module.assigns.len();
    let ghost m0 = *module;
    let ghost ctx = surroundings(m0);
    let ghost s = crate::ir::assigns_view(m0.assigns@);
    let ghost live = |a: crate::ir::AssignM| is_live(ctx, s, a.lhs);
    let mut flags: Vec<bool> = Vec::new();
    let mut i: usize = 0;
    while i < module.assigns.len()
        invariant
            i <= module.assigns@.len(),
            flags@.len() == i,
            *module == m0,
            ctx == surroundings(m0),
            s == crate::ir::assigns_view(m0.assigns@),
            used@ == used_names(ctx, s),
            forall|j: int| 0 <= j < i ==> #[trigger] flags@[j] == is_live(ctx, s, s[j].lhs),
        decreases module.assigns@.len() - i,
    {
        let lhs = module.assigns[i].lhs.as_str();
        let keep = is_declared(module, lhs) || used.contains(lhs) || used.prefixes(lhs);
        flags.push(keep);
        i = i + 1;
    }
    let mut pos: usize = 0;
    let mut k: usize = 0;
    assert(s.take(0).filter(live) =~= Seq::empty()) by {
        reveal(Seq::filter);
    }
    assert(s.skip(0) == s);
    while k < flags.len()
        invariant
            k <= flags@.len() == s.len(),
            *module == (IrModule { assigns: module.assigns, ..m0 }),
            forall|j: int|
                0 <= j < flags@.len() ==> #[trigger] flags@[j] == is_live(ctx, s, s[j].lhs),
            live == (|a: crate::ir::AssignM| is_live(ctx, s, a.lhs)),
            pos == s.take(k as int).filter(live).len(),
            crate::ir::assigns_view(module.assigns@) == s.take(k as int).filter(live) + s.skip(
                k as int,
            ),
        decreases flags@.len() - k,
    {
        let ghost kept = s.take(k as int).filter(live);
        proof {
            assert(s.take(k + 1).drop_last() == s.take(k as int));
            assert(s.take(k + 1).last() == s[k as int]);
            reveal(Seq::filter);
            assert(s.take(k + 1).filter(live) == if flags@[k as int] {
                kept.push(s[k as int])
            } else {
                kept
            });
        }
        assert(crate::ir::assigns_view(module.assigns@).len() == module.assigns@.len());
        if flags[k] {
            pos = pos + 1;
            assert(crate::ir::assigns_view(module.assigns@) =~= kept.push(s[k as int]) + s.skip(
                k + 1,
            ));
        } else {
            let ghost cur = crate::ir::assigns_view(module.assigns@);
            module.assigns.remove(pos);
            assert(crate::ir::assigns_view(module.assigns@) =~= cur.remove(pos as int));
            assert(crate::ir::assigns_view(module.assigns@) =~= kept + s.skip(k + 1));
        }
        k = k + 1;
    }
    assert(s.take(k as int) == s);
    assert(crate::ir::assigns_view(module.assigns@) =~= s.filter(live));
    proof {
        s.lemma_filter_len(live);
        assert(crate::ir::assigns_view(module.assigns@).len() == module.assigns@.len());
    }
    before - module.assigns.len()
}

} // verus!
