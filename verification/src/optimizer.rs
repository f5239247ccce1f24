//! Multi-pass optimizer for the IR.
//!
//! Pass order, repeated until nothing changes:
//!
//!  1. Expression canonicalization
//!  2. Algebraic simplification (folding, identities, strength reduction, De Morgan)
//!  3. Peephole combining
//!  4. Constant propagation
//!  5. Copy propagation
//!  6. Common subexpression elimination
//!  7. Code sinking
//!  8. Dead signal elimination
//!  9. Two-state inference
//!
//! At the project level, module inlining and loop unrolling run first.
use crate::ir::{IrAssign, IrModule, IrProject};
use crate::{Diagnostic, Severity};
use vstd::prelude::*;

pub mod canonical;
pub mod domain;
pub mod eval;
pub mod inline;
pub mod inline_laws;
pub mod laws;
pub mod names;
pub mod passes;
pub mod ports;
pub mod progress_laws;
pub mod rewrite;
pub mod rule_laws;
pub mod rules;
pub mod subst;
pub mod unroll;
pub mod unroll_laws;
pub mod value_laws;

use canonical::canonicalize_assigns;
use domain::four_value_simplification;
use inline::module_inlining;
use names::dead_signal_elimination;
use passes::{constant_propagation, copy_propagation, cse};
use ports::resolve_instance_port_connections;
use rewrite::{apply_rule_assigns, Rule};
use subst::expr_size;
use unroll::unroll_loops;

pub use domain::ValueDomain;

verus! {

/// Per-pass transformation counts. A count that does not fit stays at the maximum.
#[derive(Debug, Clone, PartialEq, Eq)]
pub struct OptimizeMetrics {
    pub modules_inlined: usize,
    pub canonicalizations: usize,
    pub algebraic_rewrites: usize,
    pub peephole_rewrites: usize,
    pub constants_propagated: usize,
    pub copies_propagated: usize,
    pub cse_eliminations: usize,
    pub sinking_rewrites: usize,
    pub dead_signals_removed: usize,
    pub xz_simplifications: usize,
    pub loops_unrolled: usize,
    pub total_passes: usize,
    /// Number of expression nodes after each pass iteration.
    pub score_history: Vec<usize>,
}

/// Model of [`OptimizeMetrics`] with unbounded counts.
pub ghost struct MetricsM {
    pub modules_inlined: nat,
    pub canonicalizations: nat,
    pub algebraic_rewrites: nat,
    pub peephole_rewrites: nat,
    pub constants_propagated: nat,
    pub copies_propagated: nat,
    pub cse_eliminations: nat,
    pub sinking_rewrites: nat,
    pub dead_signals_removed: nat,
    pub xz_simplifications: nat,
    pub loops_unrolled: nat,
    pub total_passes: nat,
    pub score_history: Seq<usize>,
}

pub open spec fn zero_metrics() -> MetricsM {
    MetricsM {
        modules_inlined: 0,
        canonicalizations: 0,
        algebraic_rewrites: 0,
        peephole_rewrites: 0,
        constants_propagated: 0,
        copies_propagated: 0,
        cse_eliminations: 0,
        sinking_rewrites: 0,
        dead_signals_removed: 0,
        xz_simplifications: 0,
        loops_unrolled: 0,
        total_passes: 0,
        score_history: Seq::empty(),
    }
}

impl OptimizeMetrics {
    /// The counts are those of `m`, held in machine integers.
    pub open spec fn holds(&self, m: MetricsM) -> bool {
        &&& self.modules_inlined == rewrite::sat(m.modules_inlined)
        &&& self.canonicalizations == rewrite::sat(m.canonicalizations)
        &&& self.algebraic_rewrites == rewrite::sat(m.algebraic_rewrites)
        &&& self.peephole_rewrites == rewrite::sat(m.peephole_rewrites)
        &&& self.constants_propagated == rewrite::sat(m.constants_propagated)
        &&& self.copies_propagated == rewrite::sat(m.copies_propagated)
        &&& self.cse_eliminations == rewrite::sat(m.cse_eliminations)
        &&& self.sinking_rewrites == rewrite::sat(m.sinking_rewrites)
        &&& self.dead_signals_removed == rewrite::sat(m.dead_signals_removed)
        &&& self.xz_simplifications == rewrite::sat(m.xz_simplifications)
        &&& self.loops_unrolled == rewrite::sat(m.loops_unrolled)
        &&& self.total_passes == rewrite::sat(m.total_passes)
        &&& self.score_history@ == m.score_history
    }
}

impl Default for OptimizeMetrics {
    fn default() -> (r: Self)
        ensures
            r.holds(zero_metrics()),
    {
        OptimizeMetrics {
            modules_inlined: 0,
            canonicalizations: 0,
            algebraic_rewrites: 0,
            peephole_rewrites: 0,
            constants_propagated: 0,
            copies_propagated: 0,
            cse_eliminations: 0,
            sinking_rewrites: 0,
            dead_signals_removed: 0,
            xz_simplifications: 0,
            loops_unrolled: 0,
            total_passes: 0,
            score_history: Vec::new(),
        }
    }
}

/// Total number of expression nodes over all right-hand sides.
pub open spec fn assigns_size(s: Seq<crate::ir::AssignM>) -> nat
    decreases s.len(),
{
    if s.len() == 0 {
        0
    } else {
        assigns_size(s.drop_last()) + subst::size(s.last().rhs)
    }
}

fn total_size(assigns: &Vec<IrAssign>) -> (r: usize)
    ensures
        r == rewrite::sat(assigns_size(crate::ir::assigns_view(assigns@))),
{
    let ghost model = crate::ir::assigns_view(assigns@);
    let mut total: usize = 0;
    let mut i: usize = 0;
    while i < assigns.len()
        invariant
            i <= assigns@.len(),
            model == crate::ir::assigns_view(assigns@),
            total == rewrite::sat(assigns_size(model.take(i as int))),
        decreases assigns@.len() - i,
    {
        assert(model.take(i + 1).drop_last() == model.take(i as int));
        assert(model.take(i + 1).last() == assigns@[i as int]@);
        total = total.saturating_add(expr_size(&assigns[i].rhs));
        i = i + 1;
    }
    assert(model.take(i as int) == model);
    total
}

/// The assigns after each pass of one iteration.
pub ghost struct RoundM {
    pub start: Seq<crate::ir::AssignM>,
    pub canonical: Seq<crate::ir::AssignM>,
    pub folded: Seq<crate::ir::AssignM>,
    pub combined: Seq<crate::ir::AssignM>,
    pub const_propagated: Seq<crate::ir::AssignM>,
    pub copy_propagated: Seq<crate::ir::AssignM>,
    pub deduplicated: Seq<crate::ir::AssignM>,
    pub sunk: Seq<crate::ir::AssignM>,
    pub live: Seq<crate::ir::AssignM>,
}

/// One iteration of all passes.
pub open spec fn round(ctx: names::Surroundings, s: Seq<crate::ir::AssignM>) -> RoundM {
    let canonical = canonical::canonical_assigns(s);
    let folded = rewrite::rewritten_assigns(Rule::Algebraic, canonical);
    let combined = rewrite::rewritten_assigns(Rule::Peephole, folded);
    let const_propagated = subst::subst_assigns(combined, passes::const_map(combined), false);
    let copy_propagated = subst::subst_assigns(
        const_propagated,
        subst::map_of(passes::copies(const_propagated)),
        true,
    );
    let deduplicated = subst::subst_assigns(
        copy_propagated,
        subst::map_of(passes::cse_scan(copy_propagated).rename),
        false,
    );
    let sunk = rewrite::rewritten_assigns(Rule::Sink, deduplicated);
    RoundM {
        start: s,
        canonical,
        folded,
        combined,
        const_propagated,
        copy_propagated,
        deduplicated,
        sunk,
        live: names::live_assigns(ctx, sunk),
    }
}

/// What one iteration adds to the counts.
pub open spec fn round_counts(r: RoundM) -> MetricsM {
    MetricsM {
        modules_inlined: 0,
        canonicalizations: canonical::swap_count_assigns(r.start),
        algebraic_rewrites: rewrite::rewrite_count_assigns(Rule::Algebraic, r.canonical),
        peephole_rewrites: rewrite::rewrite_count_assigns(Rule::Peephole, r.folded),
        constants_propagated: subst::subst_count_assigns(
            r.combined,
            passes::const_map(r.combined),
            false,
        ),
        copies_propagated: subst::subst_count_assigns(
            r.const_propagated,
            subst::map_of(passes::copies(r.const_propagated)),
            true,
        ),
        cse_eliminations: subst::subst_count_assigns(
            r.copy_propagated,
            subst::map_of(passes::cse_scan(r.copy_propagated).rename),
            false,
        ),
        sinking_rewrites: rewrite::rewrite_count_assigns(Rule::Sink, r.deduplicated),
        dead_signals_removed: (r.sunk.len() - r.live.len()) as nat,
        xz_simplifications: 0,
        loops_unrolled: 0,
        total_passes: 1,
        score_history: seq![rewrite::sat(assigns_size(r.live))],
    }
}

/// Sum of all transformations of the per-module passes.
pub open spec fn transformations(m: MetricsM) -> nat {
    m.canonicalizations + m.algebraic_rewrites + m.peephole_rewrites + m.constants_propagated
        + m.copies_propagated + m.cse_eliminations + m.sinking_rewrites + m.dead_signals_removed
}

/// Counts added up, score histories one after the other.
pub open spec fn add_metrics(a: MetricsM, b: MetricsM) -> MetricsM {
    MetricsM {
        modules_inlined: a.modules_inlined + b.modules_inlined,
        canonicalizations: a.canonicalizations + b.canonicalizations,
        algebraic_rewrites: a.algebraic_rewrites + b.algebraic_rewrites,
        peephole_rewrites: a.peephole_rewrites + b.peephole_rewrites,
        constants_propagated: a.constants_propagated + b.constants_propagated,
        copies_propagated: a.copies_propagated + b.copies_propagated,
        cse_eliminations: a.cse_eliminations + b.cse_eliminations,
        sinking_rewrites: a.sinking_rewrites + b.sinking_rewrites,
        dead_signals_removed: a.dead_signals_removed + b.dead_signals_removed,
        xz_simplifications: a.xz_simplifications + b.xz_simplifications,
        loops_unrolled: a.loops_unrolled + b.loops_unrolled,
        total_passes: a.total_passes + b.total_passes,
        score_history: a.score_history + b.score_history,
    }
}

/// Result of iterating the passes.
pub ghost struct OptimizedM {
    pub assigns: Seq<crate::ir::AssignM>,
    pub metrics: MetricsM,
}

/// Iterates the passes from `s` until an iteration changes nothing, or `limit` iterations
/// have run; `acc` holds the counts so far.
pub open spec fn optimized(
    ctx: names::Surroundings,
    s: Seq<crate::ir::AssignM>,
    acc: MetricsM,
    limit: nat,
) -> OptimizedM
    decreases limit,
{
    let r = round(ctx, s);
    let c = round_counts(r);
    let sum = add_metrics(acc, c);
    if transformations(c) == 0 || limit <= 1 {
        OptimizedM { assigns: r.live, metrics: sum }
    } else {
        optimized(ctx, r.live, sum, (limit - 1) as nat)
    }
}

/// Runs all per-module passes until a fixed point, returning detailed metrics.
pub fn optimize_module_with_metrics(module: &mut IrModule) -> (metrics: OptimizeMetrics)
    ensures
        *final(module) == (IrModule { assigns: final(module).assigns, ..*old(module) }),
        crate::ir::assigns_view(final(module).assigns@) == optimized(
            names::surroundings(*old(module)),
            crate::ir::assigns_view(old(module).assigns@),
            zero_metrics(),
            usize::MAX as nat,
        ).assigns,
        metrics.holds(
            optimized(
                names::surroundings(*old(module)),
                crate::ir::assigns_view(old(module).assigns@),
                zero_metrics(),
                usize::MAX as nat,
            ).metrics,
        ),
{
    let mut metrics = OptimizeMetrics::default();
    let ghost ctx = names::surroundings(*module);
    let ghost mut acc = zero_metrics();
    let ghost goal = optimized(
        ctx,
        crate::ir::assigns_view(module.assigns@),
        zero_metrics(),
        usize::MAX as nat,
    );
    let mut left: usize = usize::MAX;
    let mut running = true;
    while running
        invariant
            *module == (IrModule { assigns: module.assigns, ..*old(module) }),
            ctx == names::surroundings(*old(module)),
            metrics.holds(acc),
            running ==> left > 0,
            acc.total_passes == usize::MAX - left,
            running ==> optimized(
                ctx,
                crate::ir::assigns_view(module.assigns@),
                acc,
                left as nat,
            ) == goal,
            !running ==> goal == (OptimizedM {
                assigns: crate::ir::assigns_view(module.assigns@),
                metrics: acc,
            }),
        decreases left, running as int,
    {
        let ghost s = crate::ir::assigns_view(module.assigns@);
        let ghost r = round(ctx, s);
        let ghost c = round_counts(r);
        assert(names::surroundings(*module) == ctx);

        let c1 = canonicalize_assigns(&mut module.assigns);
        let c2 = apply_rule_assigns(Rule::Algebraic, &mut module.assigns);
        let c3 = apply_rule_assigns(Rule::Peephole, &mut module.assigns);
        let c4 = constant_propagation(&mut module.assigns);
        let c5 = copy_propagation(&mut module.assigns);
        let c6 = cse(&mut module.assigns);
        let c7 = apply_rule_assigns(Rule::Sink, &mut module.assigns);
        assert(crate::ir::assigns_view(module.assigns@) == r.sunk);
        assert(r.sunk.len() == module.assigns@.len());
        assert(names::surroundings(*module) == ctx);
        let c8 = dead_signal_elimination(module);
        assert(crate::ir::assigns_view(module.assigns@) == r.live);
        assert(r.live.len() == module.assigns@.len());
        let c9 = four_value_simplification(&mut module.assigns);
        let score = total_size(&module.assigns);

        metrics.canonicalizations = metrics.canonicalizations.saturating_add(c1);
        metrics.algebraic_rewrites = metrics.algebraic_rewrites.saturating_add(c2);
        metrics.peephole_rewrites = metrics.peephole_rewrites.saturating_add(c3);
        metrics.constants_propagated = metrics.constants_propagated.saturating_add(c4);
        metrics.copies_propagated = metrics.copies_propagated.saturating_add(c5);
        metrics.cse_eliminations = metrics.cse_eliminations.saturating_add(c6);
        metrics.sinking_rewrites = metrics.sinking_rewrites.saturating_add(c7);
        metrics.dead_signals_removed = metrics.dead_signals_removed.saturating_add(c8);
        metrics.xz_simplifications = metrics.xz_simplifications.saturating_add(c9);
        metrics.score_history.push(score);
        metrics.total_passes = metrics.total_passes.saturating_add(1);
        left = left - 1;
        proof {
            let sum = add_metrics(acc, c);
            assert(metrics.score_history@ =~= sum.score_history);
            acc = sum;
        }
        let unchanged = c1 == 0 && c2 == 0 && c3 == 0 && c4 == 0 && c5 == 0 && c6 == 0 && c7 == 0
            && c8 == 0 && c9 == 0;
        assert(unchanged <==> transformations(c) == 0);
        running = !unchanged && left > 0;
    }
    metrics
}

/// Runs all per-module passes until a fixed point. Returns the total number of
/// transformations applied.
pub fn optimize_module(module: &mut IrModule) -> (count: usize)
    ensures
        *final(module) == (IrModule { assigns: final(module).assigns, ..*old(module) }),
        crate::ir::assigns_view(final(module).assigns@) == optimized(
            names::surroundings(*old(module)),
            crate::ir::assigns_view(old(module).assigns@),
            zero_metrics(),
            usize::MAX as nat,
        ).assigns,
        count == rewrite::sat(
            transformations(
                optimized(
                    names::surroundings(*old(module)),
                    crate::ir::assigns_view(old(module).assigns@),
                    zero_metrics(),
                    usize::MAX as nat,
                ).metrics,
            ),
        ),
{
    let m = optimize_module_with_metrics(module);
    m.canonicalizations.saturating_add(m.algebraic_rewrites).saturating_add(
        m.peephole_rewrites,
    ).saturating_add(m.constants_propagated).saturating_add(m.copies_propagated).saturating_add(
        m.cse_eliminations,
    ).saturating_add(m.sinking_rewrites).saturating_add(m.dead_signals_removed)
}

// ---------------------------------------------------------------------------------------
// Projects
// ---------------------------------------------------------------------------------------
/// Loops unrolled in a list of `always` blocks.
pub open spec fn always_loops(s: Seq<crate::ir::IrAlways>) -> nat
    decreases s.len(),
{
    if s.len() == 0 {
        0
    } else {
        always_loops(s.drop_last()) + unroll::unroll_count(s.last().stmts@)
    }
}

/// Loops unrolled in a list of `initial` blocks.
pub open spec fn initial_loops(s: Seq<crate::ir::IrInitial>) -> nat
    decreases s.len(),
{
    if s.len() == 0 {
        0
    } else {
        initial_loops(s.drop_last()) + unroll::unroll_count(s.last().stmts@)
    }
}

/// `out` is `m` with the loops of its blocks unrolled.
pub open spec fn is_unrolled(m: IrModule, out: IrModule) -> bool {
    &&& out == (IrModule {
        always_blocks: out.always_blocks,
        initial_blocks: out.initial_blocks,
        ..m
    })
    &&& out.always_blocks@.len() == m.always_blocks@.len()
    &&& forall|i: int|
        0 <= i < out.always_blocks@.len() ==> (#[trigger] out.always_blocks@[i]).sensitivity
            == m.always_blocks@[i].sensitivity && out.always_blocks@[i].stmts@ == unroll::unrolled(
            m.always_blocks@[i].stmts@,
        )
    &&& out.initial_blocks@.len() == m.initial_blocks@.len()
    &&& forall|i: int|
        0 <= i < out.initial_blocks@.len() ==> (#[trigger] out.initial_blocks@[i]).stmts@
            == unroll::unrolled(m.initial_blocks@[i].stmts@)
}

/// `out` is `m` optimized: loops unrolled, then all passes iterated.
pub open spec fn is_optimized(m: IrModule, out: IrModule) -> bool {
    &&& is_unrolled(m, IrModule { assigns: m.assigns, ..out })
    &&& crate::ir::assigns_view(out.assigns@) == optimized(
        names::surroundings(out),
        crate::ir::assigns_view(m.assigns@),
        zero_metrics(),
        usize::MAX as nat,
    ).assigns
}

/// The counts of optimizing `m` into `out`.
pub open spec fn module_metrics(m: IrModule, out: IrModule) -> MetricsM {
    MetricsM {
        loops_unrolled: always_loops(m.always_blocks@) + initial_loops(m.initial_blocks@),
        ..optimized(
            names::surroundings(out),
            crate::ir::assigns_view(m.assigns@),
            zero_metrics(),
            usize::MAX as nat,
        ).metrics
    }
}

/// The counts of optimizing the first `n` modules.
pub open spec fn modules_metrics(mods: Seq<IrModule>, outs: Seq<IrModule>, n: int) -> MetricsM
    decreases n,
{
    if n <= 0 {
        zero_metrics()
    } else {
        add_metrics(
            modules_metrics(mods, outs, n - 1),
            module_metrics(mods[n - 1], outs[n - 1]),
        )
    }
}

fn unroll_module(m: &mut IrModule) -> (count: usize)
    ensures
        is_unrolled(*old(m), *final(m)),
        count == rewrite::sat(
            always_loops(old(m).always_blocks@) + initial_loops(old(m).initial_blocks@),
        ),
{
    let ghost m0 = *m;
    let mut count: usize = 0;
    let mut i: usize = 0;
    let na: usize = m.always_blocks.len();
    while i < na
        invariant
            i <= na,
            na == m0.always_blocks@.len(),
            m.always_blocks@.len() == na,
            *m == (IrModule { always_blocks: m.always_blocks, ..m0 }),
            count == rewrite::sat(always_loops(m0.always_blocks@.take(i as int))),
            forall|j: int|
                i <= j < na ==> #[trigger] m.always_blocks@[j] == m0.always_blocks@[j],
            forall|j: int|
                0 <= j < i ==> (#[trigger] m.always_blocks@[j]).sensitivity
                    == m0.always_blocks@[j].sensitivity && m.always_blocks@[j].stmts@
                    == unroll::unrolled(m0.always_blocks@[j].stmts@),
        decreases na - i,
    {
        assert(m0.always_blocks@.take(i + 1).drop_last() == m0.always_blocks@.take(i as int));
        assert(m.always_blocks@[i as int] == m0.always_blocks@[i as int]);
        let c = unroll_loops(&mut m.always_blocks[i].stmts);
        count = count.saturating_add(c);
        i = i + 1;
    }
    assert(m0.always_blocks@.take(i as int) == m0.always_blocks@);
    let ghost m1 = *m;
    let mut k: usize = 0;
    let ni: usize = m.initial_blocks.len();
    while k < ni
        invariant
            k <= ni,
            ni == m0.initial_blocks@.len(),
            m1.initial_blocks == m0.initial_blocks,
            m.initial_blocks@.len() == ni,
            *m == (IrModule { initial_blocks: m.initial_blocks, ..m1 }),
            count == rewrite::sat(
                always_loops(m0.always_blocks@) + initial_loops(
                    m0.initial_blocks@.take(k as int),
                ),
            ),
            forall|j: int|
                k <= j < ni ==> #[trigger] m.initial_blocks@[j] == m0.initial_blocks@[j],
            forall|j: int|
                0 <= j < k ==> (#[trigger] m.initial_blocks@[j]).stmts@ == unroll::unrolled(
                    m0.initial_blocks@[j].stmts@,
                ),
        decreases ni - k,
    {
        assert(m0.initial_blocks@.take(k + 1).drop_last() == m0.initial_blocks@.take(k as int));
        assert(m.initial_blocks@[k as int] == m0.initial_blocks@[k as int]);
        let c = unroll_loops(&mut m.initial_blocks[k].stmts);
        count = count.saturating_add(c);
        k = k + 1;
    }
    assert(m0.initial_blocks@.take(k as int) == m0.initial_blocks@);
    count
}

fn add_into(total: &mut OptimizeMetrics, part: OptimizeMetrics, Ghost(t): Ghost<MetricsM>, Ghost(p): Ghost<MetricsM>)
    requires
        old(total).holds(t),
        part.holds(p),
    ensures
        final(total).holds(add_metrics(t, p)),
{
    let mut scores = part.score_history;
    total.modules_inlined = total.modules_inlined.saturating_add(part.modules_inlined);
    total.canonicalizations = total.canonicalizations.saturating_add(part.canonicalizations);
    total.algebraic_rewrites = total.algebraic_rewrites.saturating_add(part.algebraic_rewrites);
    total.peephole_rewrites = total.peephole_rewrites.saturating_add(part.peephole_rewrites);
    total.constants_propagated = total.constants_propagated.saturating_add(
        part.constants_propagated,
    );
    total.copies_propagated = total.copies_propagated.saturating_add(part.copies_propagated);
    total.cse_eliminations = total.cse_eliminations.saturating_add(part.cse_eliminations);
    total.sinking_rewrites = total.sinking_rewrites.saturating_add(part.sinking_rewrites);
    total.dead_signals_removed = total.dead_signals_removed.saturating_add(
        part.dead_signals_removed,
    );
    total.xz_simplifications = total.xz_simplifications.saturating_add(part.xz_simplifications);
    total.loops_unrolled = total.loops_unrolled.saturating_add(part.loops_unrolled);
    total.total_passes = total.total_passes.saturating_add(part.total_passes);
    total.score_history.append(&mut scores);
}

/// Outcome of optimizing a project whose port connections fit: the connections are named,
/// small modules are inlined where `inline_modules` is set, and every module is optimized.
pub open spec fn project_optimized(
    old_mods: Seq<IrModule>,
    inline_modules: bool,
    outs: Seq<IrModule>,
    metrics: OptimizeMetrics,
) -> bool {
    exists|named: Seq<IrModule>, flat: Seq<IrModule>| #[trigger]
        project_stages(old_mods, inline_modules, named, flat, outs) && metrics.holds(
            MetricsM {
                modules_inlined: if inline_modules {
                    inline::inlined_count(named, named.len() as int)
                } else {
                    0
                },
                ..modules_metrics(flat, outs, flat.len() as int)
            },
        )
}

/// `named`, `flat` and `outs` are the modules with connections named, after inlining, and
/// at the end.
pub open spec fn project_stages(
    old_mods: Seq<IrModule>,
    inline_modules: bool,
    named: Seq<IrModule>,
    flat: Seq<IrModule>,
    outs: Seq<IrModule>,
) -> bool {
    &&& named.len() == old_mods.len()
    &&& forall|i: int|
        0 <= i < named.len() ==> ports::named_module(old_mods, old_mods[i], #[trigger] named[i])
    &&& flat.len() == named.len()
    &&& inline_modules ==> forall|i: int|
        0 <= i < flat.len() ==> inline::is_inlined(named, named[i], #[trigger] flat[i])
    &&& !inline_modules ==> flat == named
    &&& outs.len() == flat.len()
    &&& forall|i: int| 0 <= i < outs.len() ==> is_optimized(flat[i], #[trigger] outs[i])
}

/// The diagnostic reports an instance whose connections do not fit.
pub open spec fn misfit_reported(mods: Seq<IrModule>, d: Diagnostic) -> bool {
    &&& d.severity == Severity::Error
    &&& d.line == 0
    &&& d.column == 0
    &&& d.path@ == Seq::<char>::empty()
    &&& exists|m: int, i: int|
        0 <= m < mods.len() && 0 <= i < mods[m].instances@.len() && !ports::instance_fits(
            mods,
            #[trigger] mods[m].instances@[i],
        ) && d.message@ == ports::misfit_text(mods[m].instances@[i])
}

/// Optimizes a whole project: names positional port connections, inlines small modules
/// where `inline_modules` is set, then unrolls loops and runs the per-module passes. A
/// project whose connections do not fit gets a diagnostic and is left as it is.
pub fn optimize_project(project: &mut IrProject, inline_modules: bool) -> (metrics: OptimizeMetrics)
    ensures
        ports::all_fit(old(project).modules@) ==> project_optimized(
            old(project).modules@,
            inline_modules,
            final(project).modules@,
            metrics,
        ) && *final(project) == (IrProject { modules: final(project).modules, ..*old(project) }),
        !ports::all_fit(old(project).modules@) ==> metrics.holds(zero_metrics()) && *final(project)
            == (IrProject { diagnostics: final(project).diagnostics, ..*old(project) })
            && final(project).diagnostics@.len() == old(project).diagnostics@.len() + 1
            && final(project).diagnostics@.drop_last() == old(project).diagnostics@
            && misfit_reported(old(project).modules@, final(project).diagnostics@.last()),
{
    let mut metrics = OptimizeMetrics::default();
    let ghost mods0 = project.modules@;
    match resolve_instance_port_connections(project) {
        Ok(_) => {},
        Err(msg) => {
            proof {
                let (m, i) = choose|m: int, i: int|
                    0 <= m < mods0.len() && 0 <= i < mods0[m].instances@.len()
                        && !ports::instance_fits(mods0, #[trigger] mods0[m].instances@[i]) && msg@
                        == ports::misfit_text(mods0[m].instances@[i]);
                assert(!ports::all_fit(mods0));
            }
            let d = Diagnostic {
                message: msg,
                severity: Severity::Error,
                line: 0,
                column: 0,
                path: String::new(),
            };
            project.diagnostics.push(d);
            assert(project.diagnostics@.drop_last() == old(project).diagnostics@);
            assert(project.diagnostics@.last() == d);
            return metrics;
        },
    }
    let ghost named = project.modules@;
    let mut inlined: usize = 0;
    if inline_modules {
        inlined = module_inlining(project);
    }
    let ghost flat = project.modules@;
    let ghost mut acc = zero_metrics();
    let n: usize = project.modules.len();
    let mut i: usize = 0;
    while i < n
        invariant
            i <= n,
            n == flat.len(),
            project.modules@.len() == n,
            *project == (IrProject { modules: project.modules, ..*old(project) }),
            metrics.holds(acc),
            acc == modules_metrics(flat, project.modules@, i as int),
            acc.modules_inlined == 0,
            forall|j: int| i <= j < n ==> #[trigger] project.modules@[j] == flat[j],
            forall|j: int| 0 <= j < i ==> is_optimized(flat[j], #[trigger] project.modules@[j]),
        decreases n - i,
    {
        let ghost before = project.modules@;
        assert(project.modules@[i as int] == flat[i as int]);
        let loops = unroll_module(&mut project.modules[i]);
        let ghost mid = project.modules@[i as int];
        let mut part = optimize_module_with_metrics(&mut project.modules[i]);
        let ghost out = project.modules@[i as int];
        proof {
            assert(names::surroundings(mid) == names::surroundings(out));
            assert(mid == (IrModule { assigns: flat[i as int].assigns, ..out }));
            assert(is_optimized(flat[i as int], out));
            lemma_no_inlines(
                names::surroundings(out),
                crate::ir::assigns_view(flat[i as int].assigns@),
                zero_metrics(),
                usize::MAX as nat,
            );
        }
        part.loops_unrolled = loops;
        let ghost p = module_metrics(flat[i as int], out);
        add_into(&mut metrics, part, Ghost(acc), Ghost(p));
        proof {
            lemma_modules_metrics(flat, before, project.modules@, i as int);
            acc = add_metrics(acc, p);
        }
        i = i + 1;
    }
    metrics.modules_inlined = inlined;
    assert(project_stages(mods0, inline_modules, named, flat, project.modules@));
    metrics
}

/// The per-module passes inline nothing and unroll nothing.
proof fn lemma_no_inlines(
    ctx: names::Surroundings,
    s: Seq<crate::ir::AssignM>,
    acc: MetricsM,
    limit: nat,
)
    requires
        acc.modules_inlined == 0,
        acc.loops_unrolled == 0,
    ensures
        optimized(ctx, s, acc, limit).metrics.modules_inlined == 0,
        optimized(ctx, s, acc, limit).metrics.loops_unrolled == 0,
    decreases limit,
{
    let r = round(ctx, s);
    let c = round_counts(r);
    if transformations(c) != 0 && limit > 1 {
        lemma_no_inlines(ctx, r.live, add_metrics(acc, c), (limit - 1) as nat);
    }
}

proof fn lemma_modules_metrics(
    mods: Seq<IrModule>,
    a: Seq<IrModule>,
    b: Seq<IrModule>,
    n: int,
)
    requires
        0 <= n,
        forall|j: int| 0 <= j < n ==> a[j] == b[j],
    ensures
        modules_metrics(mods, a, n) == modules_metrics(mods, b, n),
    decreases n,
{
    if n > 0 {
        lemma_modules_metrics(mods, a, b, n - 1);
    }
}

} // verus!
