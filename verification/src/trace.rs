//! Execution trace: per-statement `(time, span)` records emitted by the simulator,
//! plus per-signal driver provenance records.
//!
//! The debugger pulls slices of [`TraceEntry`] to highlight which source statements
//! fired at a given time. [`DriverEvent`] is a parallel stream emitted every time a
//! signal is assigned.
use crate::source_map::Span;
use vstd::prelude::*;

verus! {

/// One record per executed statement.
///
/// `time_fs` is the simulator's femtosecond clock at the moment the statement fired.
/// Several entries may share one `time_fs`.
#[derive(Debug, Clone, Copy, PartialEq, Eq, Structural)]
pub struct TraceEntry {
    pub time_fs: u64,
    pub span: Span,
}

impl TraceEntry {
    pub fn new(time_fs: u64, span: Span) -> (r: Self)
        ensures
            r == (TraceEntry { time_fs, span }),
    {
        TraceEntry { time_fs, span }
    }
}

/// Branch chosen for a ternary right-hand side at a specific write.
#[derive(Debug, Clone, Copy, PartialEq, Eq, Structural)]
pub enum BranchChoice {
    Then,
    Else,
}

/// Per-assignment provenance record.
///
/// `stmt_span` points to the driving statement. `branch` is set when the right-hand side
/// is a conditional expression. `value` is the value that was assigned.
#[derive(Debug, Clone, Copy, PartialEq, Eq)]
pub struct DriverEvent {
    pub time_fs: u64,
    pub signal_idx: u32,
    pub stmt_span: Span,
    pub branch: Option<BranchChoice>,
    pub value: i64,
}

impl DriverEvent {
    pub fn new(
        time_fs: u64,
        signal_idx: u32,
        stmt_span: Span,
        branch: Option<BranchChoice>,
        value: i64,
    ) -> (r: Self)
        ensures
            r == (DriverEvent { time_fs, signal_idx, stmt_span, branch, value }),
    {
        DriverEvent { time_fs, signal_idx, stmt_span, branch, value }
    }
}

/// Entries are in time order.
pub open spec fn trace_sorted(trace: Seq<TraceEntry>) -> bool {
    forall|i: int, j: int| 0 <= i <= j < trace.len() ==> trace[i].time_fs <= trace[j].time_fs
}

/// The entries of `trace` that fired exactly at `t_fs`.
pub open spec fn entries_at(trace: Seq<TraceEntry>, t_fs: u64) -> Seq<TraceEntry> {
    trace.filter(|e: TraceEntry| e.time_fs == t_fs)
}

/// Number of leading entries of a time-ordered trace that come before `t_fs`, or up to
/// and at `t_fs` where `through` is set.
fn time_bound(trace: &[TraceEntry], t_fs: u64, through: bool) -> (r: usize)
    requires
        trace_sorted(trace@),
    ensures
        r <= trace@.len(),
        forall|k: int|
            0 <= k < r ==> trace@[k].time_fs < t_fs || through && trace@[k].time_fs == t_fs,
        forall|k: int|
            r <= k < trace@.len() ==> !(trace@[k].time_fs < t_fs || through && trace@[k].time_fs
                == t_fs),
{
    let mut lo: usize = 0;
    let mut hi: usize = trace.len();
    while lo < hi
        invariant
            lo <= hi <= trace@.len(),
            trace_sorted(trace@),
            forall|k: int|
                0 <= k < lo ==> trace@[k].time_fs < t_fs || through && trace@[k].time_fs == t_fs,
            forall|k: int|
                hi <= k < trace@.len() ==> !(trace@[k].time_fs < t_fs || through
                    && trace@[k].time_fs == t_fs),
        decreases hi - lo,
    {
        let mid: usize = lo + (hi - lo) / 2;
        let t: u64 = trace[mid].time_fs;
        if t < t_fs || (through && t == t_fs) {
            lo = mid + 1;
        } else {
            hi = mid;
        }
    }
    lo
}

proof fn lemma_filter_run(trace: Seq<TraceEntry>, t_fs: u64, lo: int, hi: int)
    requires
        0 <= lo <= hi <= trace.len(),
        forall|k: int| 0 <= k < trace.len() ==> (trace[k].time_fs == t_fs <==> lo <= k < hi),
    ensures
        entries_at(trace, t_fs) == trace.subrange(lo, hi),
    decreases trace.len(),
{
    reveal(Seq::filter);
    if trace.len() > 0 {
        let rest = trace.drop_last();
        if hi == trace.len() && lo < hi {
            assert forall|k: int| 0 <= k < rest.len() implies (rest[k].time_fs == t_fs <==> lo <= k
                < hi - 1) by {
                assert(rest[k] == trace[k]);
            }
            lemma_filter_run(rest, t_fs, lo, hi - 1);
            assert(trace.subrange(lo, hi) == rest.subrange(lo, hi - 1).push(trace.last()));
        } else if hi == trace.len() {
            assert forall|k: int| 0 <= k < rest.len() implies (rest[k].time_fs == t_fs <==> lo - 1
                <= k < hi - 1) by {
                assert(rest[k] == trace[k]);
            }
            lemma_filter_run(rest, t_fs, lo - 1, hi - 1);
            assert(trace.subrange(lo, hi) == rest.subrange(lo - 1, hi - 1));
        } else {
            assert forall|k: int| 0 <= k < rest.len() implies (rest[k].time_fs == t_fs <==> lo <= k
                < hi) by {
                assert(rest[k] == trace[k]);
            }
            lemma_filter_run(rest, t_fs, lo, hi);
            assert(trace.subrange(lo, hi) == rest.subrange(lo, hi));
        }
    } else {
        assert(trace.subrange(lo, hi) == Seq::<TraceEntry>::empty());
    }
}

/// The contiguous slice of entries with `time_fs == t_fs`, found by binary search.
/// The trace is in time order; the slice is empty when no entry matches.
pub fn trace_at(trace: &[TraceEntry], t_fs: u64) -> (r: &[TraceEntry])
    requires
        trace_sorted(trace@),
    ensures
        r@ == entries_at(trace@, t_fs),
{
    let lo = time_bound(trace, t_fs, false);
    let hi = time_bound(trace, t_fs, true);
    proof {
        if hi < lo {
            assert(trace@[hi as int].time_fs < t_fs);
        }
        lemma_filter_run(trace@, t_fs, lo as int, hi as int);
    }
    vstd::slice::slice_subrange(trace, lo, hi)
}

/// The last entry of a time-ordered trace whose `time_fs <= t_fs`.
pub fn trace_latest_at_or_before(trace: &[TraceEntry], t_fs: u64) -> (r: Option<&TraceEntry>)
    requires
        trace_sorted(trace@),
    ensures
        match r {
            Some(e) => exists|i: int|
                0 <= i < trace@.len() && #[trigger] trace@[i] == *e && e.time_fs <= t_fs
                    && forall|k: int| i < k < trace@.len() ==> trace@[k].time_fs > t_fs,
            None => forall|k: int| 0 <= k < trace@.len() ==> trace@[k].time_fs > t_fs,
        },
{
    let idx = time_bound(trace, t_fs, true);
    if idx == 0 {
        None
    } else {
        assert(trace@[idx - 1].time_fs <= t_fs);
        Some(&trace[idx - 1])
    }
}

/// Event `e` is one of `signal_idx` at or before `t_fs`.
pub open spec fn drives_by(e: DriverEvent, signal_idx: u32, t_fs: u64) -> bool {
    e.signal_idx == signal_idx && e.time_fs <= t_fs
}

/// Position of the last event of `signal_idx` at or before `t_fs`.
pub open spec fn latest_driver(events: Seq<DriverEvent>, signal_idx: u32, t_fs: u64) -> Option<
    int,
>
    decreases events.len(),
{
    if events.len() == 0 {
        None
    } else if drives_by(events.last(), signal_idx, t_fs) {
        Some(events.len() - 1)
    } else {
        latest_driver(events.drop_last(), signal_idx, t_fs)
    }
}

/// The most recent driver event for `signal_idx` at `time <= t_fs`, found by a scan
/// from the end.
pub fn driver_latest_at_or_before(events: &[DriverEvent], signal_idx: u32, t_fs: u64) -> (r: Option<
    &DriverEvent,
>)
    ensures
        match r {
            Some(e) => latest_driver(events@, signal_idx, t_fs) matches Some(i) && *e == events@[i],
            None => latest_driver(events@, signal_idx, t_fs) is None,
        },
{
    let mut n: usize = events.len();
    assert(events@.take(n as int) == events@);
    while n > 0
        invariant
            n <= events@.len(),
            latest_driver(events@, signal_idx, t_fs) == latest_driver(
                events@.take(n as int),
                signal_idx,
                t_fs,
            ),
        decreases n,
    {
        let e = &events[n - 1];
        assert(events@.take(n as int).last() == *e);
        assert(events@.take(n as int).drop_last() == events@.take(n - 1));
        if e.signal_idx == signal_idx && e.time_fs <= t_fs {
            return Some(e);
        }
        n = n - 1;
    }
    None
}

/// `latest_driver` picks an event that matches, and no later event matches.
pub proof fn lemma_latest_driver(events: Seq<DriverEvent>, signal_idx: u32, t_fs: u64)
    ensures
        match latest_driver(events, signal_idx, t_fs) {
            Some(i) => 0 <= i < events.len() && drives_by(events[i], signal_idx, t_fs)
                && forall|k: int| i < k < events.len() ==> !drives_by(events[k], signal_idx, t_fs),
            None => forall|k: int|
                0 <= k < events.len() ==> !drives_by(events[k], signal_idx, t_fs),
        },
    decreases events.len(),
{
    if events.len() > 0 && !drives_by(events.last(), signal_idx, t_fs) {
        let rest = events.drop_last();
        lemma_latest_driver(rest, signal_idx, t_fs);
        assert forall|k: int| 0 <= k < rest.len() implies rest[k] == events[k] by {}
        match latest_driver(rest, signal_idx, t_fs) {
            Some(i) => {
                assert forall|k: int| i < k < events.len() implies !drives_by(
                    events[k],
                    signal_idx,
                    t_fs,
                ) by {
                    if k < rest.len() {
                        assert(!drives_by(rest[k], signal_idx, t_fs));
                    }
                }
            },
            None => {
                assert forall|k: int| 0 <= k < events.len() implies !drives_by(
                    events[k],
                    signal_idx,
                    t_fs,
                ) by {
                    if k < rest.len() {
                        assert(!drives_by(rest[k], signal_idx, t_fs));
                    }
                }
            },
        }
    }
}

} // verus!
