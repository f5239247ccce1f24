//! A simulation that is stepped interactively, and the queries of a debugger on it.
use crate::ir::IrProject;
use crate::signal_names::{join_scope, resolve_signal, split_scope};
use crate::source_map::{FileId, FileModel, InfoM, Span, SpanInfo};
use crate::statement::{ascii_string, find_byte, find_word, operand_end, span_assigns_to_signal};
use crate::text::str_eq;
use crate::trace::{
    driver_latest_at_or_before, trace_at, trace_latest_at_or_before, BranchChoice, DriverEvent,
    TraceEntry,
};
use crate::SourceFile;
use vstd::prelude::*;
use vstd::slice::slice_subrange;

verus! {

/// Handle of a live session.
pub type SessionId = u64;

/// How far a step goes.
#[derive(Debug, Clone, Copy, PartialEq, Eq, Structural)]
pub enum StepMode {
    OneStatement,
    OneTick,
    OneCycle,
    ToEnd,
}

/// What a step did.
#[derive(Debug, Clone, Copy, PartialEq, Eq, Structural)]
pub enum StepOutcome {
    /// It led to the time `t_sim` and ran some statements.
    Advanced { t_sim: u64, ran_statements: usize },
    End,
}

/// What the header of a waveform says of its run.
#[derive(Debug)]
pub struct VcdRunMeta {
    pub top_source_file: Option<String>,
    pub command_line: Option<String>,
    pub output_vcd_path: Option<String>,
    pub working_directory: Option<String>,
}

/// What a simulation is set up with.
#[derive(Debug)]
pub struct SimConfig {
    pub top_module: String,
    pub num_cycles: usize,
    pub timescale: String,
    pub timescale_precision: String,
    pub clock_half_period: usize,
    /// The half period was asked for, rather than taken by default.
    pub clock_half_period_is_explicit: bool,
    /// Sum of the delays of the initial blocks, where there are any.
    pub initial_delay_sum_units: Option<u64>,
    pub vcd_meta: Option<VcdRunMeta>,
}

impl SimConfig {
    /// All but the top module and the number of cycles is as by default.
    pub open spec fn is_plain(&self) -> bool {
        &&& self.timescale@ == "1ns"@
        &&& self.timescale_precision@ == "1ns"@
        &&& self.clock_half_period == 5
        &&& !self.clock_half_period_is_explicit
        &&& self.initial_delay_sum_units is None
        &&& self.vcd_meta is None
    }
}

impl Default for SimConfig {
    fn default() -> (r: Self)
        ensures
            r.is_plain(),
            r.top_module@ == ""@,
            r.num_cycles == 64,
    {
        SimConfig {
            top_module: "".to_owned(),
            num_cycles: 64,
            timescale: "1ns".to_owned(),
            timescale_precision: "1ns".to_owned(),
            clock_half_period: 5,
            clock_half_period_is_explicit: false,
            initial_delay_sum_units: None,
            vcd_meta: None,
        }
    }
}

/// A simulator that is stepped. A session reads it only through these methods.
pub trait SimRunner: Sized {
    /// Statements executed so far, in time order.
    closed spec fn spec_trace(&self) -> Seq<TraceEntry> {
        arbitrary()
    }

    /// Writes to signals so far.
    closed spec fn spec_events(&self) -> Seq<DriverEvent> {
        arbitrary()
    }

    /// Names of the flattened signals; an event refers to them by position.
    closed spec fn spec_names(&self) -> Seq<Seq<char>> {
        arbitrary()
    }

    /// The statement that drives a signal by the text of the design alone.
    closed spec fn spec_static_driver(&self, signal: Seq<char>) -> Option<Span> {
        arbitrary()
    }

    /// The signal that a port is connected to.
    closed spec fn spec_alias(&self, signal: Seq<char>) -> Option<Seq<char>> {
        arbitrary()
    }

    closed spec fn spec_index(&self, signal: Seq<char>) -> Option<u32> {
        arbitrary()
    }

    closed spec fn spec_time(&self) -> u64 {
        arbitrary()
    }

    /// Current value and width of a signal.
    closed spec fn spec_value(&self, name: Seq<char>) -> Option<(i64, usize)> {
        arbitrary()
    }

    closed spec fn spec_vcd(&self) -> Seq<char> {
        arbitrary()
    }

    /// A step of this kind may lead from `before` to `after` with this outcome.
    closed spec fn spec_step(
        before: Self,
        mode: StepMode,
        clock: Option<Seq<char>>,
        after: Self,
        outcome: StepOutcome,
    ) -> bool {
        arbitrary()
    }

    fn step_until(&mut self, mode: StepMode, clock_signal: Option<&str>) -> (r: StepOutcome)
        ensures
            Self::spec_step(*old(self), mode, text_of(clock_signal), *final(self), r),
    ;

    fn vcd_buffer(&self) -> (r: &str)
        ensures
            r@ == self.spec_vcd(),
    ;

    fn trace(&self) -> (r: &[TraceEntry])
        ensures
            r@ == self.spec_trace(),
            crate::trace::trace_sorted(r@),
    ;

    fn driver_events(&self) -> (r: &[DriverEvent])
        ensures
            r@ == self.spec_events(),
    ;

    fn signal_names(&self) -> (r: &[String])
        ensures
            crate::parser::cst::names_view(r@) == self.spec_names(),
    ;

    fn static_driver(&self, signal: &str) -> (r: Option<Span>)
        ensures
            r == self.spec_static_driver(signal@),
    ;

    fn port_alias(&self, signal: &str) -> (r: Option<String>)
        ensures
            string_of(r) == self.spec_alias(signal@),
    ;

    fn signal_index_of(&self, signal: &str) -> (r: Option<u32>)
        ensures
            r == self.spec_index(signal@),
    ;

    fn current_time_fs(&self) -> (r: u64)
        ensures
            r == self.spec_time(),
    ;

    fn eval_signal(&self, name: &str) -> (r: Option<(i64, usize)>)
        ensures
            r == self.spec_value(name@),
    ;
}

/// An optional text, by its view.
pub open spec fn text_of(s: Option<&str>) -> Option<Seq<char>> {
    match s {
        Some(t) => Some(t@),
        None => None,
    }
}

/// An optional string, by its view.
pub open spec fn string_of(s: Option<String>) -> Option<Seq<char>> {
    match s {
        Some(t) => Some(t@),
        None => None,
    }
}

/// The spans of some entries, each once, by first appearance.
pub open spec fn distinct_spans(entries: Seq<TraceEntry>) -> Seq<Span>
    decreases entries.len(),
{
    if entries.len() == 0 {
        Seq::empty()
    } else {
        let before = distinct_spans(entries.drop_last());
        if before.contains(entries.last().span) {
            before
        } else {
            before.push(entries.last().span)
        }
    }
}

/// The time of the last entry at or before `t`.
pub open spec fn last_activity(trace: Seq<TraceEntry>, t: u64) -> Option<u64>
    decreases trace.len(),
{
    if trace.len() == 0 {
        None
    } else if trace.last().time_fs <= t {
        Some(trace.last().time_fs)
    } else {
        last_activity(trace.drop_last(), t)
    }
}

/// The spans active at `t`: those that fired then, else those of the last activity before.
pub open spec fn active_spans(trace: Seq<TraceEntry>, t: u64) -> Seq<Span> {
    distinct_spans(
        match last_activity(trace, t) {
            Some(u) => crate::trace::entries_at(trace, u),
            None => Seq::empty(),
        },
    )
}

proof fn lemma_last_activity(trace: Seq<TraceEntry>, t: u64)
    ensures
        match last_activity(trace, t) {
            Some(u) => u <= t && exists|i: int|
                0 <= i < trace.len() && (#[trigger] trace[i]).time_fs == u && forall|k: int|
                    i < k < trace.len() ==> (#[trigger] trace[k]).time_fs > t,
            None => forall|k: int| 0 <= k < trace.len() ==> (#[trigger] trace[k]).time_fs > t,
        },
    decreases trace.len(),
{
    if trace.len() > 0 {
        if trace.last().time_fs <= t {
            assert(trace[trace.len() - 1].time_fs == trace.last().time_fs);
        } else {
            let rest = trace.drop_last();
            lemma_last_activity(rest, t);
            match last_activity(rest, t) {
                Some(u) => {
                    let i = choose|i: int|
                        0 <= i < rest.len() && (#[trigger] rest[i]).time_fs == u && forall|k: int|
                            i < k < rest.len() ==> (#[trigger] rest[k]).time_fs > t;
                    assert(trace[i].time_fs == u);
                    assert forall|k: int| i < k < trace.len() implies (#[trigger] trace[k]).time_fs
                        > t by {
                        if k < rest.len() {
                            assert(rest[k] == trace[k]);
                        }
                    }
                },
                None => {
                    assert forall|k: int| 0 <= k < trace.len() implies (
                    #[trigger] trace[k]).time_fs > t by {
                        if k < rest.len() {
                            assert(rest[k] == trace[k]);
                        }
                    }
                },
            }
        }
    }
}

/// Where statements fired exactly at `t`, those are what is active; of a trace in time
/// order.
pub proof fn law_exact_hit_is_active(trace: Seq<TraceEntry>, t: u64)
    requires
        crate::trace::trace_sorted(trace),
        crate::trace::entries_at(trace, t).len() > 0,
    ensures
        active_spans(trace, t) == distinct_spans(crate::trace::entries_at(trace, t)),
{
    let hits = crate::trace::entries_at(trace, t);
    lemma_hit(trace, t);
    let h = choose|h: int| 0 <= h < trace.len() && (#[trigger] trace[h]).time_fs == t;
    lemma_last_activity(trace, t);
    let u = last_activity(trace, t).unwrap();
    let i = choose|i: int|
        0 <= i < trace.len() && (#[trigger] trace[i]).time_fs == u && forall|k: int|
            i < k < trace.len() ==> (#[trigger] trace[k]).time_fs > t;
    assert(h <= i);
    assert(trace[h].time_fs <= trace[i].time_fs);
    assert(u == t);
}

proof fn lemma_hit(trace: Seq<TraceEntry>, t: u64)
    requires
        crate::trace::entries_at(trace, t).len() > 0,
    ensures
        exists|h: int| 0 <= h < trace.len() && (#[trigger] trace[h]).time_fs == t,
    decreases trace.len(),
{
    reveal(Seq::filter);
    if trace.len() > 0 {
        if trace.last().time_fs == t {
            assert(trace[trace.len() - 1].time_fs == t);
        } else {
            lemma_hit(trace.drop_last(), t);
            let h = choose|h: int|
                0 <= h < trace.len() - 1 && (#[trigger] trace.drop_last()[h]).time_fs == t;
            assert(trace[h].time_fs == t);
        }
    }
}

/// No span is active twice.
pub proof fn law_active_spans_are_distinct(trace: Seq<TraceEntry>, t: u64)
    ensures
        active_spans(trace, t).no_duplicates(),
{
    match last_activity(trace, t) {
        Some(u) => lemma_distinct(crate::trace::entries_at(trace, u)),
        None => {},
    }
}

proof fn lemma_distinct(entries: Seq<TraceEntry>)
    ensures
        distinct_spans(entries).no_duplicates(),
    decreases entries.len(),
{
    if entries.len() > 0 {
        lemma_distinct(entries.drop_last());
        let before = distinct_spans(entries.drop_last());
        let r = distinct_spans(entries);
        if !before.contains(entries.last().span) {
            assert forall|i: int, j: int| 0 <= i < r.len() && 0 <= j < r.len() && i != j implies r[i]
                != r[j] by {
                if i < before.len() && j < before.len() {
                } else if i < before.len() {
                    assert(before.contains(before[i]));
                } else {
                    assert(before.contains(before[j]));
                }
            }
        }
    }
}

/// What is known of some spans, without those of files that are not registered.
pub open spec fn known_infos(files: Seq<FileModel>, spans: Seq<Span>) -> Seq<InfoM>
    decreases spans.len(),
{
    if spans.len() == 0 {
        Seq::empty()
    } else {
        match crate::source_map::resolved(files, spans.last()) {
            Some(info) => known_infos(files, spans.drop_last()).push(info),
            None => known_infos(files, spans.drop_last()),
        }
    }
}

pub open spec fn infos_view(s: Seq<SpanInfo>) -> Seq<InfoM> {
    Seq::new(s.len(), |i: int| s[i]@)
}

/// The value that a signal is written with at exactly `t`; the last one where there are
/// several.
pub open spec fn write_at(events: Seq<DriverEvent>, idx: u32, t: u64) -> Option<i64>
    decreases events.len(),
{
    if events.len() == 0 {
        None
    } else if events.last().signal_idx == idx && events.last().time_fs == t {
        Some(events.last().value)
    } else {
        write_at(events.drop_last(), idx, t)
    }
}

/// The values before and after the write to a signal at `t`.
pub open spec fn transition_at(events: Seq<DriverEvent>, idx: u32, t: u64) -> Option<(i64, i64)> {
    match write_at(events, idx, t) {
        Some(to) => Some((value_before(events, idx, t), to)),
        None => None,
    }
}

/// Value of a signal by its last write at or before `t`.
pub open spec fn value_by(events: Seq<DriverEvent>, idx: u32, t: u64) -> Option<i64> {
    match crate::trace::latest_driver(events, idx, t) {
        Some(i) => Some(events[i].value),
        None => None,
    }
}

/// Events are in time order.
pub open spec fn events_sorted(events: Seq<DriverEvent>) -> bool {
    forall|i: int, j: int|
        0 <= i <= j < events.len() ==> (#[trigger] events[i]).time_fs <= (
        #[trigger] events[j]).time_fs
}

/// There is a transition at `t` exactly if the signal was written then. It leads from the
/// value that the signal had just before `t` (zero where nothing had driven it) to the value
/// that it has at `t`, the latter of events in time order.
pub proof fn law_transition_values(events: Seq<DriverEvent>, idx: u32, t: u64)
    ensures
        transition_at(events, idx, t) is Some <==> written_at(events, idx, t),
        transition_at(events, idx, t) matches Some((from, to)) ==> {
            &&& from == value_before(events, idx, t)
            &&& events_sorted(events) ==> value_by(events, idx, t) == Some(to)
        },
{
    lemma_write_at(events, idx, t);
}

proof fn lemma_write_at(events: Seq<DriverEvent>, idx: u32, t: u64)
    ensures
        write_at(events, idx, t) is Some <==> written_at(events, idx, t),
        events_sorted(events) && write_at(events, idx, t) is Some ==> value_by(events, idx, t)
            == write_at(events, idx, t),
    decreases events.len(),
{
    if events.len() > 0 {
        let e = events.last();
        let rest = events.drop_last();
        lemma_write_at(rest, idx, t);
        lemma_value_by(events, idx, t);
        if written_at(events, idx, t) {
            let i = choose|i: int|
                0 <= i < events.len() && (#[trigger] events[i]).signal_idx == idx
                    && events[i].time_fs == t;
            if i < rest.len() {
                assert(rest[i] == events[i]);
            }
        }
        if written_at(rest, idx, t) {
            let i = choose|i: int|
                0 <= i < rest.len() && (#[trigger] rest[i]).signal_idx == idx && rest[i].time_fs
                    == t;
            assert(events[i] == rest[i]);
            if events_sorted(events) {
                assert(events[i].time_fs <= events[events.len() - 1].time_fs);
            }
        }
        assert(events[events.len() - 1] == e);
        if events_sorted(events) {
            assert forall|i: int, j: int| 0 <= i <= j < rest.len() implies (
            #[trigger] rest[i]).time_fs <= (#[trigger] rest[j]).time_fs by {
                assert(events[i].time_fs <= events[j].time_fs);
            }
        }
    }
}

proof fn lemma_value_by(events: Seq<DriverEvent>, idx: u32, t: u64)
    requires
        events.len() > 0,
    ensures
        value_by(events, idx, t) == if crate::trace::drives_by(events.last(), idx, t) {
            Some(events.last().value)
        } else {
            value_by(events.drop_last(), idx, t)
        },
{
    crate::trace::lemma_latest_driver(events.drop_last(), idx, t);
}

/// The signal was written exactly at `t`.
pub open spec fn written_at(events: Seq<DriverEvent>, idx: u32, t: u64) -> bool {
    exists|i: int|
        0 <= i < events.len() && (#[trigger] events[i]).signal_idx == idx && events[i].time_fs == t
}

/// Value of a signal just before `t`; zero where nothing had driven it.
pub open spec fn value_before(events: Seq<DriverEvent>, idx: u32, t: u64) -> i64 {
    if t == 0 {
        0
    } else {
        match value_by(events, idx, (t - 1) as u64) {
            Some(v) => v,
            None => 0,
        }
    }
}

/// The driving statement of a signal.
#[derive(Debug)]
pub struct DriverQueryResult {
    pub resolved_signal: String,
    pub file_id: FileId,
    pub path: String,
    pub stmt_span: Span,
    pub branch: Option<BranchChoice>,
}

/// Model of [`DriverQueryResult`].
pub ghost struct DriverM {
    pub signal: Seq<char>,
    pub path: Seq<char>,
    pub span: Span,
    pub branch: Option<BranchChoice>,
}

impl DriverQueryResult {
    pub open spec fn view(&self) -> DriverM {
        DriverM {
            signal: self.resolved_signal@,
            path: self.path@,
            span: self.stmt_span,
            branch: self.branch,
        }
    }
}

/// A range of byte offsets in a source text.
#[derive(Debug, Clone, Copy, PartialEq, Eq, Structural)]
pub struct TextSpan {
    pub start: u32,
    pub end: u32,
}

/// Text of the source with a path, where it could be read.
pub open spec fn source_text(sources: Seq<SourceFile>, path: Seq<char>) -> Option<Seq<u8>>
    decreases sources.len(),
{
    if sources.len() == 0 {
        None
    } else if sources.last().path@ == path {
        Some(vstd::utf8::encode_utf8(sources.last().content@))
    } else {
        source_text(sources.drop_last(), path)
    }
}

pub(crate) fn find_text<'a>(sources: &'a [SourceFile], path: &str) -> (r: Option<&'a [u8]>)
    ensures
        match r {
            Some(t) => source_text(sources@, path@) == Some(t@),
            None => source_text(sources@, path@) is None,
        },
{
    let mut n: usize = sources.len();
    assert(sources@.take(n as int) == sources@);
    while n > 0
        invariant
            n <= sources@.len(),
            source_text(sources@, path@) == source_text(sources@.take(n as int), path@),
        decreases n,
    {
        assert(sources@.take(n as int).last() == sources@[n - 1]);
        assert(sources@.take(n as int).drop_last() == sources@.take(n - 1));
        if str_eq(sources[n - 1].path.as_str(), path) {
            return Some(sources[n - 1].content.as_str().as_bytes());
        }
        n = n - 1;
    }
    None
}

/// The statement at `span` is in a known file and assigns to `leaf`, as far as its text
/// tells.
pub open spec fn drives(
    files: Seq<FileModel>,
    sources: Seq<SourceFile>,
    span: Span,
    leaf: Seq<char>,
) -> bool {
    match crate::source_map::resolved(files, span) {
        Some(info) => crate::statement::assigns_to_signal(
            source_text(sources, info.path),
            span.start,
            span.end,
            vstd::utf8::encode_utf8(leaf),
        ),
        None => false,
    }
}

/// The statement that drives the signal `name` at `t`: that of its last write, else the
/// one that drives it by the text of the design; where neither assigns to the signal, that of
/// the signal that it is connected to. At most `hops` signals are looked at, none of them
/// twice.
pub open spec fn driver_from<R: SimRunner>(
    run: R,
    files: Seq<FileModel>,
    sources: Seq<SourceFile>,
    t: u64,
    name: Seq<char>,
    idx: u32,
    visited: Seq<Seq<char>>,
    hops: nat,
) -> Option<(Span, Option<BranchChoice>)>
    decreases hops,
{
    if hops == 0 {
        None
    } else {
        let leaf = crate::signal_names::leaf_of(name);
        let latest = crate::trace::latest_driver(run.spec_events(), idx, t);
        if latest is Some && drives(
            files,
            sources,
            run.spec_events()[latest.unwrap()].stmt_span,
            leaf,
        ) {
            let e = run.spec_events()[latest.unwrap()];
            Some((e.stmt_span, e.branch))
        } else if run.spec_static_driver(name) is Some && drives(
            files,
            sources,
            run.spec_static_driver(name).unwrap(),
            leaf,
        ) {
            Some((run.spec_static_driver(name).unwrap(), None))
        } else {
            match run.spec_alias(name) {
                None => None,
                Some(next) => if visited.contains(next) {
                    None
                } else {
                    match run.spec_index(next) {
                        None => None,
                        Some(i) => driver_from(
                            run,
                            files,
                            sources,
                            t,
                            next,
                            i,
                            visited.push(next),
                            (hops - 1) as nat,
                        ),
                    }
                },
            }
        }
    }
}

/// The driver of a signal at `t`, by any form of its name.
pub open spec fn driver_of<R: SimRunner>(
    run: R,
    files: Seq<FileModel>,
    sources: Seq<SourceFile>,
    signal: Seq<char>,
    t: u64,
) -> Option<DriverM> {
    match crate::signal_names::signal_of(run.spec_names(), signal) {
        None => None,
        Some(i) => {
            let name = run.spec_names()[i];
            match driver_from(
                run,
                files,
                sources,
                t,
                name,
                i as u32,
                seq![name],
                16,
            ) {
                None => None,
                Some((span, branch)) => Some(
                    DriverM {
                        signal: name,
                        path: crate::source_map::resolved(files, span).unwrap().path,
                        span,
                        branch,
                    },
                ),
            }
        },
    }
}

/// The words that are no operands.
pub open spec fn is_keyword(w: Seq<char>) -> bool {
    w == "if"@ || w == "else"@ || w == "begin"@ || w == "end"@ || w == "assign"@ || w
        == "always"@ || w == "initial"@ || w == "posedge"@ || w == "negedge"@ || w == "case"@ || w
        == "endcase"@ || w == "for"@ || w == "while"@ || w == "repeat"@ || w == "wire"@ || w
        == "reg"@ || w == "logic"@ || w == "input"@ || w == "output"@ || w == "inout"@ || w
        == "module"@ || w == "endmodule"@ || w == "parameter"@ || w == "localparam"@ || w
        == "integer"@ || w == "signed"@ || w == "unsigned"@
}

fn is_verilog_keyword(w: &str) -> (r: bool)
    ensures
        r == is_keyword(w@),
{
    str_eq(w, "if") || str_eq(w, "else") || str_eq(w, "begin") || str_eq(w, "end") || str_eq(
        w,
        "assign",
    ) || str_eq(w, "always") || str_eq(w, "initial") || str_eq(w, "posedge") || str_eq(
        w,
        "negedge",
    ) || str_eq(w, "case") || str_eq(w, "endcase") || str_eq(w, "for") || str_eq(w, "while")
        || str_eq(w, "repeat") || str_eq(w, "wire") || str_eq(w, "reg") || str_eq(w, "logic")
        || str_eq(w, "input") || str_eq(w, "output") || str_eq(w, "inout") || str_eq(w, "module")
        || str_eq(w, "endmodule") || str_eq(w, "parameter") || str_eq(w, "localparam") || str_eq(
        w,
        "integer",
    ) || str_eq(w, "signed") || str_eq(w, "unsigned")
}

/// The name stands for another signal than `target` that is written at `t`.
pub open spec fn name_written<R: SimRunner>(run: R, name: Seq<char>, target: u32, t: u64) -> bool {
    match crate::signal_names::signal_of(run.spec_names(), name) {
        Some(i) => i as u32 != target && written_at(run.spec_events(), i as u32, t),
        None => false,
    }
}

/// The word is an operand that is written at `t`, in the scope of the target or by itself.
pub open spec fn is_driving_word<R: SimRunner>(
    run: R,
    word: Seq<char>,
    name: Seq<char>,
    target: u32,
    t: u64,
) -> bool {
    &&& !is_keyword(word)
    &&& word != crate::signal_names::leaf_of(name)
    &&& {
        ||| match crate::signal_names::scope_of(name) {
            Some(p) => name_written(run, p + "__"@ + word, target, t),
            None => false,
        }
        ||| name_written(run, word, target, t)
    }
}

/// The first operand on the right of the first `=` of a statement whose signal is written at
/// `t`.
pub open spec fn driving_token<R: SimRunner>(
    run: R,
    signal: Seq<char>,
    t: u64,
    span: Span,
    text: Option<Seq<u8>>,
) -> Option<(int, int)> {
    match (crate::signal_names::signal_of(run.spec_names(), signal), text) {
        (Some(i), Some(s)) => {
            let name = run.spec_names()[i];
            let eq = crate::statement::next_byte(s, span.start as int, span.end as int, 61);
            if !crate::statement::in_text(s, span.start, span.end) || eq >= span.end {
                None
            } else {
                crate::statement::operand_from(
                    s,
                    eq + 1,
                    span.end as int,
                    |w: Seq<char>| is_driving_word(run, w, name, i as u32, t),
                )
            }
        },
        _ => None,
    }
}

/// The entries that are active at `t_fs`.
fn active_entries(trace: &[TraceEntry], t_fs: u64) -> (r: &[TraceEntry])
    requires
        crate::trace::trace_sorted(trace@),
    ensures
        r@ == match last_activity(trace@, t_fs) {
            Some(u) => crate::trace::entries_at(trace@, u),
            None => Seq::empty(),
        },
{
    proof {
        lemma_last_activity(trace@, t_fs);
    }
    match trace_latest_at_or_before(trace, t_fs) {
        Some(latest) => {
            proof {
                let i = choose|i: int|
                    0 <= i < trace@.len() && #[trigger] trace@[i] == *latest && latest.time_fs
                        <= t_fs && forall|k: int|
                        i < k < trace@.len() ==> trace@[k].time_fs > t_fs;
                let u = last_activity(trace@, t_fs).unwrap();
                let j = choose|j: int|
                    0 <= j < trace@.len() && (#[trigger] trace@[j]).time_fs == u && forall|k: int|
                        j < k < trace@.len() ==> (#[trigger] trace@[k]).time_fs > t_fs;
                assert(i == j);
            }
            trace_at(trace, latest.time_fs)
        },
        None => {
            let none = slice_subrange(trace, 0, 0);
            assert(none@ =~= Seq::empty());
            none
        },
    }
}

/// The spans of some entries, each once.
fn spans_once(entries: &[TraceEntry]) -> (r: Vec<Span>)
    ensures
        r@ == distinct_spans(entries@),
{
    let mut out: Vec<Span> = Vec::new();
    let mut i: usize = 0;
    assert(out@ =~= distinct_spans(entries@.take(0)));
    while i < entries.len()
        invariant
            i <= entries@.len(),
            out@ == distinct_spans(entries@.take(i as int)),
        decreases entries@.len() - i,
    {
        assert(entries@.take(i + 1).drop_last() == entries@.take(i as int));
        assert(entries@.take(i + 1).last() == entries@[i as int]);
        let span = entries[i].span;
        if !holds_span(&out, span) {
            out.push(span);
        }
        i = i + 1;
    }
    assert(entries@.take(i as int) == entries@);
    out
}

/// A live simulation, with the path of its waveform file and its sources.
pub struct SimSession<R: SimRunner> {
    runner: R,
    vcd_path: String,
    source_files: Vec<(FileId, String)>,
    config: SimConfig,
}

impl<R: SimRunner> SimSession<R> {
    /// The simulator.
    pub closed spec fn run(&self) -> R {
        self.runner
    }

    pub closed spec fn spec_vcd_path(&self) -> Seq<char> {
        self.vcd_path@
    }

    pub closed spec fn spec_sources(&self) -> Seq<(FileId, String)> {
        self.source_files@
    }

    pub closed spec fn spec_config(&self) -> SimConfig {
        self.config
    }

    /// A session on `project`, with the simulator that was made for it; its error where
    /// there is none.
    pub fn start(
        project: &IrProject,
        config: SimConfig,
        vcd_path: &str,
        runner: Result<R, String>,
    ) -> (r: Result<Self, String>)
        ensures
            match runner {
                Ok(run) => r matches Ok(s) && s.run() == run && s.spec_vcd_path() == vcd_path@
                    && s.spec_config() == config && s.spec_sources().len()
                    == project.source_map@.len() && forall|i: int|
                    0 <= i < s.spec_sources().len() ==> (#[trigger] s.spec_sources()[i]).0 == i
                        && s.spec_sources()[i].1@ == project.source_map@[i].path,
                Err(e) => r matches Err(f) && f@ == e@,
            },
    {
        match runner {
            Ok(runner) => {
                let source_files = project.source_map.files();
                Ok(SimSession { runner, vcd_path: vcd_path.to_owned(), source_files, config })
            },
            Err(e) => Err(e),
        }
    }

    /// Advances the simulator. The name of the clock is handed on as it is.
    pub fn step(&mut self, mode: StepMode, clock_signal: Option<&str>) -> (r: StepOutcome)
        ensures
            R::spec_step(old(self).run(), mode, text_of(clock_signal), final(self).run(), r),
            final(self).spec_vcd_path() == old(self).spec_vcd_path(),
            final(self).spec_sources() == old(self).spec_sources(),
            final(self).spec_config() == old(self).spec_config(),
    {
        self.runner.step_until(mode, clock_signal)
    }

    /// The waveform written so far.
    pub fn vcd_text(&self) -> (r: &str)
        ensures
            r@ == self.run().spec_vcd(),
    {
        self.runner.vcd_buffer()
    }

    pub fn trace(&self) -> (r: &[TraceEntry])
        ensures
            r@ == self.run().spec_trace(),
    {
        self.runner.trace()
    }

    /// Spans active at `t_fs`, each once.
    pub fn active_spans_at(&self, t_fs: u64) -> (r: Vec<Span>)
        ensures
            r@ == active_spans(self.run().spec_trace(), t_fs),
    {
        spans_once(active_entries(self.runner.trace(), t_fs))
    }

    /// What is known of the spans active at `t_fs`. `project` is the one that the session
    /// was started on.
    pub fn active_span_infos_at(&self, project: &IrProject, t_fs: u64) -> (r: Vec<SpanInfo>)
        ensures
            infos_view(r@) == known_infos(
                project.source_map@,
                active_spans(self.run().spec_trace(), t_fs),
            ),
    {
        let spans = self.active_spans_at(t_fs);
        let ghost files = project.source_map@;
        let mut out: Vec<SpanInfo> = Vec::new();
        assert(infos_view(out@) =~= Seq::empty());
        let mut i: usize = 0;
        while i < spans.len()
            invariant
                i <= spans@.len(),
                files == project.source_map@,
                infos_view(out@) == known_infos(files, spans@.take(i as int)),
            decreases spans@.len() - i,
        {
            let ghost before = infos_view(out@);
            assert(spans@.take(i + 1).drop_last() == spans@.take(i as int));
            assert(spans@.take(i + 1).last() == spans@[i as int]);
            if let Some(info) = project.source_map.resolve(spans[i]) {
                out.push(info);
                assert(infos_view(out@) =~= before.push(info@));
            }
            i = i + 1;
        }
        assert(spans@.take(i as int) == spans@);
        out
    }

    pub fn vcd_path(&self) -> (r: &str)
        ensures
            r@ == self.spec_vcd_path(),
    {
        self.vcd_path.as_str()
    }

    pub fn source_files(&self) -> (r: &[(FileId, String)])
        ensures
            r@ == self.spec_sources(),
    {
        self.source_files.as_slice()
    }

    pub fn config(&self) -> (r: &SimConfig)
        ensures
            *r == self.spec_config(),
    {
        &self.config
    }

    pub fn current_time_fs(&self) -> (r: u64)
        ensures
            r == self.run().spec_time(),
    {
        self.runner.current_time_fs()
    }

    /// Current value and width of a signal by its flattened name.
    pub fn eval_signal(&self, name: &str) -> (r: Option<(i64, usize)>)
        ensures
            r == self.run().spec_value(name@),
    {
        self.runner.eval_signal(name)
    }

    fn resolve_signal_idx(&self, name: &str) -> (r: Option<(u32, String)>)
        ensures
            match crate::signal_names::signal_of(self.run().spec_names(), name@) {
                Some(i) => r is Some && r.unwrap().0 == i as u32 && r.unwrap().1@
                    == self.run().spec_names()[i],
                None => r is None,
            },
    {
        let names = self.runner.signal_names();
        let ghost model = crate::parser::cst::names_view(names@);
        proof {
            if let Some(i) = crate::signal_names::signal_of(model, name@) {
                if 0 <= i < names@.len() {
                    assert(model[i] == names@[i]@);
                }
            }
        }
        resolve_signal(names, name)
    }

    /// Current value, width and own name of a signal, by any form of its name.
    pub fn eval_signal_resolved(&self, name: &str) -> (r: Option<(i64, usize, String)>)
        ensures
            eval_view(r) == current_value(self.run(), name@),
    {
        match self.resolve_signal_idx(name) {
            Some((_, resolved)) => match self.runner.eval_signal(resolved.as_str()) {
                Some((v, w)) => Some((v, w, resolved)),
                None => None,
            },
            None => None,
        }
    }

    /// Values before and after the write to a signal at exactly `t_fs`.
    pub fn transition_info_at(&self, signal_name: &str, t_fs: u64) -> (r: Option<(i64, i64)>)
        ensures
            r == signal_transition(self.run(), signal_name@, t_fs),
    {
        let (idx, _name) = match self.resolve_signal_idx(signal_name) {
            Some(x) => x,
            None => {
                return None;
            },
        };
        let events = self.runner.driver_events();
        let mut n: usize = events.len();
        assert(events@.take(n as int) == events@);
        while n > 0
            invariant
                n <= events@.len(),
                events@ == self.runner.spec_events(),
                signal_transition(self.run(), signal_name@, t_fs) == transition_at(
                    events@,
                    idx,
                    t_fs,
                ),
                write_at(events@.take(n as int), idx, t_fs) == write_at(events@, idx, t_fs),
            decreases n,
        {
            let e = &events[n - 1];
            assert(events@.take(n as int).last() == *e);
            assert(events@.take(n as int).drop_last() == events@.take(n - 1));
            if e.signal_idx == idx && e.time_fs == t_fs {
                let before: Option<&DriverEvent> = if t_fs > 0 {
                    driver_latest_at_or_before(events, idx, t_fs - 1)
                } else {
                    None
                };
                let from: i64 = match before {
                    Some(p) => p.value,
                    None => 0,
                };
                return Some((from, e.value));
            }
            n = n - 1;
        }
        None
    }

    /// Whether the signal is written at exactly `t_fs`, be it with the value that it has.
    pub fn is_transitioning_at(&self, signal_name: &str, t_fs: u64) -> (r: bool)
        ensures
            r == (signal_transition(self.run(), signal_name@, t_fs) is Some),
            r == match crate::signal_names::signal_of(self.run().spec_names(), signal_name@) {
                Some(i) => written_at(self.run().spec_events(), i as u32, t_fs),
                None => false,
            },
    {
        proof {
            if let Some(i) = crate::signal_names::signal_of(
                self.run().spec_names(),
                signal_name@,
            ) {
                law_transition_values(self.run().spec_events(), i as u32, t_fs);
            }
        }
        self.transition_info_at(signal_name, t_fs).is_some()
    }

    /// Value of a signal by its last write at or before `t_fs`, with its width and own
    /// name.
    pub fn eval_signal_at_or_before(&self, name: &str, t_fs: u64) -> (r: Option<
        (i64, usize, String),
    >)
        ensures
            eval_view(r) == past_value(self.run(), name@, t_fs),
    {
        let (idx, resolved) = match self.resolve_signal_idx(name) {
            Some(x) => x,
            None => {
                return None;
            },
        };
        let width: usize = match self.runner.eval_signal(resolved.as_str()) {
            Some((_, w)) => w,
            None => 1,
        };
        match driver_latest_at_or_before(self.runner.driver_events(), idx, t_fs) {
            Some(e) => Some((e.value, width, resolved)),
            None => None,
        }
    }

    fn statement_drives(
        &self,
        project: &IrProject,
        sources: &[SourceFile],
        span: Span,
        leaf: &str,
    ) -> (r: Option<String>)
        ensures
            match r {
                Some(path) => drives(project.source_map@, sources@, span, leaf@) && path@
                    == crate::source_map::resolved(project.source_map@, span).unwrap().path,
                None => !drives(project.source_map@, sources@, span, leaf@),
            },
    {
        match project.source_map.resolve(span) {
            Some(info) => {
                let text = find_text(sources, info.path.as_str());
                if span_assigns_to_signal(text, span.start, span.end, leaf.as_bytes()) {
                    Some(info.path)
                } else {
                    None
                }
            },
            None => None,
        }
    }

    /// The statement that drives a signal at `t_fs`. `project` is the one that the session
    /// was started on; `sources` are the source texts that could be read.
    pub fn driver_at(
        &self,
        project: &IrProject,
        sources: &[SourceFile],
        signal_name: &str,
        t_fs: u64,
    ) -> (r: Option<DriverQueryResult>)
        ensures
            match r {
                Some(d) => driver_of(
                    self.run(),
                    project.source_map@,
                    sources@,
                    signal_name@,
                    t_fs,
                ) == Some(d@) && d.file_id == d.stmt_span.file_id,
                None => driver_of(
                    self.run(),
                    project.source_map@,
                    sources@,
                    signal_name@,
                    t_fs,
                ) is None,
            },
    {
        let ghost run = self.runner;
        let ghost files = project.source_map@;
        let (idx, resolved) = match self.resolve_signal_idx(signal_name) {
            Some(x) => x,
            None => {
                return None;
            },
        };
        let mut name = resolved.clone();
        let mut at = idx;
        let mut visited: Vec<String> = Vec::new();
        visited.push(resolved.clone());
        assert(crate::parser::cst::names_view(visited@) =~= seq![resolved@]);
        let ghost all = driver_from(
            run,
            files,
            sources@,
            t_fs,
            resolved@,
            idx,
            seq![resolved@],
            16,
        );
        let mut hops: u8 = 16;
        while hops > 0
            invariant
                hops <= 16,
                run == self.runner,
                files == project.source_map@,
                driver_of(run, files, sources@, signal_name@, t_fs) == match all {
                    None => None,
                    Some((span, branch)) => Some(
                        DriverM {
                            signal: resolved@,
                            path: crate::source_map::resolved(files, span).unwrap().path,
                            span,
                            branch,
                        },
                    ),
                },
                driver_from(
                    run,
                    files,
                    sources@,
                    t_fs,
                    name@,
                    at,
                    crate::parser::cst::names_view(visited@),
                    hops as nat,
                ) == all,
            decreases hops,
        {
            let (_scope, leaf) = split_scope(name.as_str());
            if let Some(e) = driver_latest_at_or_before(self.runner.driver_events(), at, t_fs) {
                let span = e.stmt_span;
                let branch = e.branch;
                if let Some(path) = self.statement_drives(project, sources, span, leaf.as_str()) {
                    return Some(
                        DriverQueryResult {
                            resolved_signal: resolved,
                            file_id: span.file_id,
                            path,
                            stmt_span: span,
                            branch,
                        },
                    );
                }
            }
            if let Some(span) = self.runner.static_driver(name.as_str()) {
                if let Some(path) = self.statement_drives(project, sources, span, leaf.as_str()) {
                    return Some(
                        DriverQueryResult {
                            resolved_signal: resolved,
                            file_id: span.file_id,
                            path,
                            stmt_span: span,
                            branch: None,
                        },
                    );
                }
            }
            let next = match self.runner.port_alias(name.as_str()) {
                Some(n) => n,
                None => {
                    return None;
                },
            };
            if holds_text(&visited, next.as_str()) {
                return None;
            }
            let ghost before = crate::parser::cst::names_view(visited@);
            visited.push(next.clone());
            assert(crate::parser::cst::names_view(visited@) =~= before.push(next@));
            at = match self.runner.signal_index_of(next.as_str()) {
                Some(i) => i,
                None => {
                    return None;
                },
            };
            name = next;
            hops = hops - 1;
        }
        None
    }

    fn signal_written(&self, name: &str, target: u32, t_fs: u64) -> (r: bool)
        ensures
            r == name_written(self.run(), name@, target, t_fs),
    {
        let (idx, _name) = match self.resolve_signal_idx(name) {
            Some(x) => x,
            None => {
                return false;
            },
        };
        if idx == target {
            return false;
        }
        let events = self.runner.driver_events();
        let mut i: usize = 0;
        while i < events.len()
            invariant
                i <= events@.len(),
                events@ == self.run().spec_events(),
                name_written(self.run(), name@, target, t_fs) == written_at(events@, idx, t_fs),
                forall|j: int|
                    0 <= j < i && (#[trigger] events@[j]).signal_idx == idx ==> events@[j].time_fs
                        != t_fs,
            decreases events@.len() - i,
        {
            if events[i].signal_idx == idx && events[i].time_fs == t_fs {
                assert(events@[i as int].signal_idx == idx);
                return true;
            }
            i = i + 1;
        }
        false
    }

    /// The first operand of a statement that is written at exactly `t_fs`, with its selects.
    /// There is none where nothing tells which part of the statement drives the signal.
    /// `text` is the source that the statement is in, where it could be read.
    pub fn driving_token_span_at(
        &self,
        signal_name: &str,
        t_fs: u64,
        stmt_span: Span,
        text: Option<&[u8]>,
    ) -> (r: Option<TextSpan>)
        ensures
            match driving_token(
                self.run(),
                signal_name@,
                t_fs,
                stmt_span,
                match text {
                    Some(t) => Some(t@),
                    None => None,
                },
            ) {
                Some((a, b)) => r == Some(TextSpan { start: a as u32, end: b as u32 }),
                None => r is None,
            },
    {
        let ghost run = self.runner;
        let (target, resolved) = match self.resolve_signal_idx(signal_name) {
            Some(x) => x,
            None => {
                return None;
            },
        };
        let s = match text {
            Some(t) => t,
            None => {
                return None;
            },
        };
        let start = stmt_span.start as usize;
        let end = stmt_span.end as usize;
        if start >= end || end > s.len() {
            return None;
        }
        let eq = find_byte(s, start, end, 61);
        if eq >= end {
            return None;
        }
        let ghost wanted = |w: Seq<char>| is_driving_word(run, w, resolved@, target, t_fs);
        let ghost answer = driving_token(
            self.run(),
            signal_name@,
            t_fs,
            stmt_span,
            match text {
                Some(t) => Some(t@),
                None => None,
            },
        );
        assert(answer == crate::statement::operand_from(s@, eq + 1, end as int, wanted));
        let (scope, leaf) = split_scope(resolved.as_str());
        let mut i: usize = eq + 1;
        while i < end
            invariant
                i <= end <= s@.len(),
                run == self.runner,
                end == stmt_span.end,
                answer == driving_token(
                    self.run(),
                    signal_name@,
                    t_fs,
                    stmt_span,
                    match text {
                        Some(t) => Some(t@),
                        None => None,
                    },
                ),
                answer == crate::statement::operand_from(s@, eq + 1, end as int, wanted),
                wanted == (|w: Seq<char>| is_driving_word(run, w, resolved@, target, t_fs)),
                leaf@ == crate::signal_names::leaf_of(resolved@),
                string_of(scope) == crate::signal_names::scope_of(resolved@),
                crate::statement::operand_from(s@, i as int, end as int, wanted)
                    == crate::statement::operand_from(s@, eq + 1, end as int, wanted),
            decreases end - i,
        {
            proof {
                crate::statement::lemma_operand_by_word(s@, i as int, end as int, wanted);
            }
            match find_word(s, i, end) {
                None => {
                    return None;
                },
                Some((a, b)) => {
                    let word = ascii_string(s, a, b);
                    if self.word_drives(
                        word.as_str(),
                        &scope,
                        leaf.as_str(),
                        target,
                        t_fs,
                    ) {
                        let e = operand_end(s, b, end);
                        assert(wanted(word@));
                        return Some(TextSpan { start: a as u32, end: e as u32 });
                    }
                    assert(!wanted(word@));
                    i = b;
                },
            }
        }
        None
    }

    fn word_drives(
        &self,
        word: &str,
        scope: &Option<String>,
        leaf: &str,
        target: u32,
        t_fs: u64,
    ) -> (r: bool)
        ensures
            r == (!is_keyword(word@) && word@ != leaf@ && ((match string_of(*scope) {
                Some(p) => name_written(self.run(), p + "__"@ + word@, target, t_fs),
                None => false,
            }) || name_written(self.run(), word@, target, t_fs))),
    {
        if is_verilog_keyword(word) || str_eq(word, leaf) {
            return false;
        }
        if let Some(p) = scope {
            let scoped = join_scope(p.as_str(), word);
            if self.signal_written(scoped.as_str(), target, t_fs) {
                return true;
            }
        }
        self.signal_written(word, target, t_fs)
    }
}

/// Current value of a signal by any form of its name.
pub open spec fn current_value<R: SimRunner>(run: R, name: Seq<char>) -> Option<
    (i64, usize, Seq<char>),
> {
    match crate::signal_names::signal_of(run.spec_names(), name) {
        Some(i) => match run.spec_value(run.spec_names()[i]) {
            Some((v, w)) => Some((v, w, run.spec_names()[i])),
            None => None,
        },
        None => None,
    }
}

/// Value of a signal at `t` by any form of its name.
pub open spec fn past_value<R: SimRunner>(run: R, name: Seq<char>, t: u64) -> Option<
    (i64, usize, Seq<char>),
> {
    match crate::signal_names::signal_of(run.spec_names(), name) {
        Some(i) => match value_by(run.spec_events(), i as u32, t) {
            Some(v) => Some(
                (
                    v,
                    match run.spec_value(run.spec_names()[i]) {
                        Some((_, w)) => w,
                        None => 1,
                    },
                    run.spec_names()[i],
                ),
            ),
            None => None,
        },
        None => None,
    }
}

/// The write to a signal at `t` by any form of its name.
pub open spec fn signal_transition<R: SimRunner>(run: R, name: Seq<char>, t: u64) -> Option<
    (i64, i64),
> {
    match crate::signal_names::signal_of(run.spec_names(), name) {
        Some(i) => transition_at(run.spec_events(), i as u32, t),
        None => None,
    }
}

/// An evaluation, by its view.
pub open spec fn eval_view(r: Option<(i64, usize, String)>) -> Option<(i64, usize, Seq<char>)> {
    match r {
        Some((v, w, n)) => Some((v, w, n@)),
        None => None,
    }
}

fn holds_span(spans: &Vec<Span>, span: Span) -> (r: bool)
    ensures
        r == spans@.contains(span),
{
    let mut i: usize = 0;
    while i < spans.len()
        invariant
            i <= spans@.len(),
            forall|j: int| 0 <= j < i ==> #[trigger] spans@[j] != span,
        decreases spans@.len() - i,
    {
        if spans[i] == span {
            assert(spans@[i as int] == span);
            return true;
        }
        i = i + 1;
    }
    false
}

fn holds_text(names: &Vec<String>, name: &str) -> (r: bool)
    ensures
        r == crate::parser::cst::names_view(names@).contains(name@),
{
    let ghost model = crate::parser::cst::names_view(names@);
    let mut i: usize = 0;
    while i < names.len()
        invariant
            i <= names@.len(),
            model == crate::parser::cst::names_view(names@),
            forall|j: int| 0 <= j < i ==> #[trigger] model[j] != name@,
        decreases names@.len() - i,
    {
        if str_eq(names[i].as_str(), name) {
            assert(model[i as int] == name@);
            return true;
        }
        i = i + 1;
    }
    false
}

/// Hands out session ids, one after the other.
pub struct SessionRegistry {
    next: u64,
}

impl SessionRegistry {
    /// The id that is handed out next.
    pub closed spec fn spec_next(&self) -> u64 {
        self.next
    }

    pub fn new() -> (r: Self)
        ensures
            r.spec_next() == 0,
    {
        SessionRegistry { next: 0 }
    }

    /// The id that is handed out next, left in place.
    pub(crate) fn peek_id(&self) -> (id: SessionId)
        ensures
            id == self.spec_next(),
    {
        self.next
    }

    pub fn alloc_id(&mut self) -> (id: SessionId)
        ensures
            id == old(self).spec_next(),
            final(self).spec_next() == id_after(old(self).spec_next(), 1),
    {
        let id = self.next;
        self.next = self.next.wrapping_add(1);
        id
    }
}

impl Default for SessionRegistry {
    fn default() -> (r: Self)
        ensures
            r.spec_next() == 0,
    {
        SessionRegistry::new()
    }
}

/// The id that is handed out `n` calls after `id`.
pub open spec fn id_after(id: u64, n: nat) -> u64 {
    ((id + n) % 0x1_0000_0000_0000_0000) as u64
}

/// No id is handed out twice within any 2^64 calls in a row.
pub proof fn law_ids_are_distinct(id: u64, m: nat, n: nat)
    requires
        m < n < m + 0x1_0000_0000_0000_0000,
    ensures
        id_after(id, m) != id_after(id, n),
        id_after(id_after(id, m), (n - m) as nat) == id_after(id, n),
{
    let k = 0x1_0000_0000_0000_0000int;
    let a = id + m;
    let b = id + n;
    vstd::arithmetic::div_mod::lemma_fundamental_div_mod(a, k);
    vstd::arithmetic::div_mod::lemma_fundamental_div_mod(b, k);
    vstd::arithmetic::div_mod::lemma_add_mod_noop(a, (n - m) as int, k);
    vstd::arithmetic::div_mod::lemma_mod_twice(a, k);
    if a % k == b % k {
        assert(b - a == k * (b / k - a / k)) by (nonlinear_arith)
            requires
                a == k * (a / k) + a % k,
                b == k * (b / k) + b % k,
                a % k == b % k,
        ;
        let q = b / k - a / k;
        assert(q >= 1) by (nonlinear_arith)
            requires
                k * q > 0,
                k == 0x1_0000_0000_0000_0000int,
        ;
        assert(k * q >= k) by (nonlinear_arith)
            requires
                q >= 1,
                k == 0x1_0000_0000_0000_0000int,
        ;
    }
}

} // verus!
