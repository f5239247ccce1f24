//! Laws: what the debugger shows of a run, in terms of the recorded events.
use crate::sim_session::{DriverM, SimRunner};
use crate::source_map::{FileModel, Span};
use crate::trace::{DriverEvent, TraceEntry};
use crate::SourceFile;
use vstd::prelude::*;

verus! {

/// Event `j` is the last write to signal `idx` at or before `t`: none behind it is one.
pub open spec fn is_last_write(events: Seq<DriverEvent>, idx: u32, t: u64, j: int) -> bool {
    &&& 0 <= j < events.len()
    &&& events[j].signal_idx == idx
    &&& events[j].time_fs <= t
    &&& forall|k: int|
        j < k < events.len() && (#[trigger] events[k]).signal_idx == idx ==> events[k].time_fs > t
}

/// Nothing has written signal `idx` at or before `t`.
pub open spec fn unwritten(events: Seq<DriverEvent>, idx: u32, t: u64) -> bool {
    forall|k: int|
        0 <= k < events.len() && (#[trigger] events[k]).signal_idx == idx ==> events[k].time_fs > t
}

/// The search for the last write of a signal finds it.
pub proof fn law_last_write(events: Seq<DriverEvent>, idx: u32, t: u64, j: int)
    ensures
        is_last_write(events, idx, t, j) ==> crate::trace::latest_driver(events, idx, t) == Some(j),
        unwritten(events, idx, t) ==> crate::trace::latest_driver(events, idx, t) is None,
{
    crate::trace::lemma_latest_driver(events, idx, t);
    if is_last_write(events, idx, t, j) {
        assert(crate::trace::drives_by(events[j], idx, t));
        let i = crate::trace::latest_driver(events, idx, t).unwrap();
        assert(crate::trace::drives_by(events[i], idx, t));
    }
    if unwritten(events, idx, t) && crate::trace::latest_driver(events, idx, t) is Some {
        let i = crate::trace::latest_driver(events, idx, t).unwrap();
        assert(crate::trace::drives_by(events[i], idx, t));
    }
}

/// A signal has at `t` the value of its last write at or before `t`, under its own name and
/// with its own width; it has none before its first write.
pub proof fn law_value_at_a_time<R: SimRunner>(run: R, name: Seq<char>, i: int, t: u64, j: int)
    requires
        crate::signal_names::signal_of(run.spec_names(), name) == Some(i),
    ensures
        is_last_write(run.spec_events(), i as u32, t, j) ==> crate::sim_session::past_value(
            run,
            name,
            t,
        ) == Some(
            (
                run.spec_events()[j].value,
                match run.spec_value(run.spec_names()[i]) {
                    Some(v) => v.1,
                    None => 1,
                },
                run.spec_names()[i],
            ),
        ),
        unwritten(run.spec_events(), i as u32, t) ==> crate::sim_session::past_value(run, name, t)
            is None,
        crate::sim_session::current_value(run, name) == match run.spec_value(run.spec_names()[i]) {
            Some(v) => Some((v.0, v.1, run.spec_names()[i])),
            None => None,
        },
{
    law_last_write(run.spec_events(), i as u32, t, j);
}

/// A write at exactly `t` is a transition to the value that the last such write gives, from
/// the value of the last write before `t`, or from zero where there is none.
pub proof fn law_transition<R: SimRunner>(run: R, name: Seq<char>, i: int, t: u64, j: int, p: int)
    requires
        crate::signal_names::signal_of(run.spec_names(), name) == Some(i),
        crate::sim_session::events_sorted(run.spec_events()),
        is_last_write(run.spec_events(), i as u32, t, j),
        run.spec_events()[j].time_fs == t,
    ensures
        t > 0 && is_last_write(run.spec_events(), i as u32, (t - 1) as u64, p)
            ==> crate::sim_session::signal_transition(run, name, t) == Some(
            (run.spec_events()[p].value, run.spec_events()[j].value),
        ),
        t == 0 || unwritten(run.spec_events(), i as u32, (t - 1) as u64)
            ==> crate::sim_session::signal_transition(run, name, t) == Some(
            (0i64, run.spec_events()[j].value),
        ),
{
    let events = run.spec_events();
    law_last_write(events, i as u32, t, j);
    if t > 0 {
        law_last_write(events, i as u32, (t - 1) as u64, p);
    }
    crate::sim_session::law_transition_values(events, i as u32, t);
    assert(events[j].signal_idx == i as u32 && events[j].time_fs == t);
}

/// The statement is in a known file, and assigns to the leaf of `name` as far as its text
/// tells.
pub open spec fn writes_name(
    files: Seq<FileModel>,
    sources: Seq<SourceFile>,
    span: Span,
    name: Seq<char>,
) -> bool {
    &&& crate::source_map::resolved(files, span) is Some
    &&& crate::statement::assigns_to_signal(
        crate::sim_session::source_text(
            sources,
            crate::source_map::resolved(files, span).unwrap().path,
        ),
        span.start,
        span.end,
        vstd::utf8::encode_utf8(crate::signal_names::leaf_of(name)),
    )
}

/// The driver of a signal is the statement of its last write, with the arm that was taken
/// then.
pub proof fn law_last_write_drives<R: SimRunner>(
    run: R,
    files: Seq<FileModel>,
    sources: Seq<SourceFile>,
    signal: Seq<char>,
    i: int,
    t: u64,
    j: int,
)
    requires
        crate::signal_names::signal_of(run.spec_names(), signal) == Some(i),
        is_last_write(run.spec_events(), i as u32, t, j),
        writes_name(files, sources, run.spec_events()[j].stmt_span, run.spec_names()[i]),
    ensures
        crate::sim_session::driver_of(run, files, sources, signal, t) == Some(
            DriverM {
                signal: run.spec_names()[i],
                path: files[run.spec_events()[j].stmt_span.file_id as int].path,
                span: run.spec_events()[j].stmt_span,
                branch: run.spec_events()[j].branch,
            },
        ),
{
    law_last_write(run.spec_events(), i as u32, t, j);
}

/// Before its first write, the driver of a signal is the statement that drives it by the
/// text of the design, with no arm taken.
pub proof fn law_design_drives_before_the_first_write<R: SimRunner>(
    run: R,
    files: Seq<FileModel>,
    sources: Seq<SourceFile>,
    signal: Seq<char>,
    i: int,
    t: u64,
    span: Span,
)
    requires
        crate::signal_names::signal_of(run.spec_names(), signal) == Some(i),
        unwritten(run.spec_events(), i as u32, t),
        run.spec_static_driver(run.spec_names()[i]) == Some(span),
        writes_name(files, sources, span, run.spec_names()[i]),
    ensures
        crate::sim_session::driver_of(run, files, sources, signal, t) == Some(
            DriverM {
                signal: run.spec_names()[i],
                path: files[span.file_id as int].path,
                span,
                branch: None,
            },
        ),
{
    law_last_write(run.spec_events(), i as u32, t, 0);
}

/// Where nothing writes a signal, its driver is that of the signal it is connected to; it is
/// still shown under the name that was asked for.
pub proof fn law_connected_signal_drives<R: SimRunner>(
    run: R,
    files: Seq<FileModel>,
    sources: Seq<SourceFile>,
    signal: Seq<char>,
    i: int,
    t: u64,
    next: Seq<char>,
    idx: u32,
    j: int,
)
    requires
        crate::signal_names::signal_of(run.spec_names(), signal) == Some(i),
        unwritten(run.spec_events(), i as u32, t),
        run.spec_static_driver(run.spec_names()[i]) is None,
        run.spec_alias(run.spec_names()[i]) == Some(next),
        next != run.spec_names()[i],
        run.spec_index(next) == Some(idx),
        is_last_write(run.spec_events(), idx, t, j),
        writes_name(files, sources, run.spec_events()[j].stmt_span, next),
    ensures
        crate::sim_session::driver_of(run, files, sources, signal, t) == Some(
            DriverM {
                signal: run.spec_names()[i],
                path: files[run.spec_events()[j].stmt_span.file_id as int].path,
                span: run.spec_events()[j].stmt_span,
                branch: run.spec_events()[j].branch,
            },
        ),
{
    reveal_with_fuel(crate::sim_session::driver_from, 3);
    law_last_write(run.spec_events(), i as u32, t, 0);
    law_last_write(run.spec_events(), idx, t, j);
    assert(!seq![run.spec_names()[i]].contains(next));
}

/// Of a driver without a conditional, the whole right-hand side of the statement is shown,
/// whatever is written at the time asked for.
pub proof fn law_right_hand_side_is_shown<R: SimRunner>(
    run: R,
    d: DriverM,
    text: Seq<u8>,
    signal: Seq<char>,
    t: u64,
    eq: int,
    semi: int,
    a: int,
    b: int,
)
    requires
        d.branch is None,
        ({
            let stmt = crate::sim_commands::shown_driver(run, d, text, signal, t).stmt;
            crate::statement_laws::assignment(text, stmt.0, stmt.1, eq, semi, a, b)
        }),
    ensures
        crate::sim_commands::shown_driver(run, d, text, signal, t).branch == Some((a, b)),
        crate::sim_commands::shown_driver(run, d, text, signal, t).cond is None,
{
    let stmt = crate::sim_commands::shown_statement(d, text);
    crate::statement_laws::law_right_hand_side(text, stmt.0, stmt.1, eq, semi, a, b);
}

/// Of a driver with a conditional, the condition is shown, and the arm that was taken: the
/// first for a true condition, the second for a false one.
pub proof fn law_chosen_arm_is_shown<R: SimRunner>(
    run: R,
    d: DriverM,
    text: Seq<u8>,
    signal: Seq<char>,
    t: u64,
    eq: int,
    q: int,
    colon: int,
    semi: int,
    cond: (int, int),
    yes: (int, int),
    no: (int, int),
)
    requires
        ({
            let stmt = crate::sim_commands::shown_driver(run, d, text, signal, t).stmt;
            crate::statement_laws::conditional(text, stmt.0, stmt.1, eq, q, colon, semi)
        }),
        crate::statement_laws::trims(text, eq + 1, q, cond.0, cond.1),
        cond.0 < cond.1,
        crate::statement_laws::trims(text, q + 1, colon, yes.0, yes.1),
        yes.0 < yes.1,
        crate::statement_laws::trims(text, colon + 1, semi, no.0, no.1),
        no.0 < no.1,
    ensures
        ({
            let shown = crate::sim_commands::shown_driver(run, d, text, signal, t);
            &&& d.branch == Some(crate::trace::BranchChoice::Then) ==> shown.branch == Some(yes)
                && shown.cond == Some(cond)
            &&& d.branch == Some(crate::trace::BranchChoice::Else) ==> shown.branch == Some(no)
                && shown.cond == Some(cond)
        }),
{
    let stmt = crate::sim_commands::shown_statement(d, text);
    crate::statement_laws::law_conditional_parts(
        text,
        stmt.0,
        stmt.1,
        eq,
        q,
        colon,
        semi,
        cond,
        yes,
        no,
    );
}

/// The statement shown of a driver is the line that plainly assigns to the signal, where the
/// text has one, and otherwise the statement that was found; signal, path and file are those
/// of the driver.
pub proof fn law_shown_statement<R: SimRunner>(
    run: R,
    d: DriverM,
    text: Seq<u8>,
    signal: Seq<char>,
    t: u64,
)
    ensures
        ({
            let shown = crate::sim_commands::shown_driver(run, d, text, signal, t);
            let line = crate::statement::assign_line(
                text,
                0,
                vstd::utf8::encode_utf8(crate::signal_names::leaf_of(d.signal)),
            );
            &&& shown.signal == d.signal && shown.path == d.path && shown.file_id == d.span.file_id
            &&& line is None ==> shown.stmt == (d.span.start, d.span.end)
            &&& line is Some ==> shown.stmt == (line.unwrap().0 as u32, line.unwrap().1 as u32)
        }),
{
}

/// `[a, b)` is a word of `[lo, hi)`: it starts with a letter or an underscore, goes on with
/// letters, digits, underscores and dollar signs, and is as long as it can be.
pub open spec fn is_word(s: Seq<u8>, lo: int, hi: int, a: int, b: int) -> bool {
    &&& lo <= a < b <= hi
    &&& crate::statement_laws::name_byte(s[a]) && !('0' as u8 <= s[a] <= '9' as u8) && s[a]
        != '$' as u8
    &&& forall|k: int| a < k < b ==> crate::statement_laws::name_byte(#[trigger] s[k])
    &&& b < hi ==> !crate::statement_laws::name_byte(s[b])
}

proof fn lemma_word_end(s: Seq<u8>, i: int, hi: int)
    requires
        i <= hi,
    ensures
        i <= crate::statement::word_end(s, i, hi) <= hi,
        forall|k: int|
            i <= k < crate::statement::word_end(s, i, hi) ==> crate::statement_laws::name_byte(
                #[trigger] s[k],
            ),
        crate::statement::word_end(s, i, hi) < hi ==> !crate::statement_laws::name_byte(
            s[crate::statement::word_end(s, i, hi)],
        ),
    decreases hi - i,
{
    if i < hi && crate::statement::is_word(s[i]) {
        lemma_word_end(s, i + 1, hi);
    }
}

spec fn found_word(
    s: Seq<u8>,
    lo: int,
    hi: int,
    wanted: spec_fn(Seq<char>) -> bool,
    a: int,
    b: int,
) -> bool {
    exists|e: int|
        a < e <= b <= hi && #[trigger] is_word(s, lo, hi, a, e) && wanted(
            crate::statement::ascii_text(s.subrange(a, e)),
        )
}

proof fn lemma_operand(s: Seq<u8>, i: int, hi: int, wanted: spec_fn(Seq<char>) -> bool)
    requires
        0 <= i <= hi <= s.len(),
    ensures
        crate::statement::operand_from(s, i, hi, wanted) matches Some((a, b)) ==> found_word(
            s,
            i,
            hi,
            wanted,
            a,
            b,
        ),
    decreases hi - i,
{
    if i < hi {
        if !crate::statement::starts_word(s[i]) {
            lemma_operand(s, i + 1, hi, wanted);
            if let Some((a, b)) = crate::statement::operand_from(s, i + 1, hi, wanted) {
                let e = choose|e: int|
                    a < e <= b <= hi && #[trigger] is_word(s, i + 1, hi, a, e) && wanted(
                        crate::statement::ascii_text(s.subrange(a, e)),
                    );
                assert(is_word(s, i, hi, a, e));
                assert(crate::statement::operand_from(s, i, hi, wanted) == Some((a, b)));
            }
        } else {
            let j = crate::statement::word_end(s, i + 1, hi);
            lemma_word_end(s, i + 1, hi);
            assert(is_word(s, i, hi, i, j));
            if wanted(crate::statement::ascii_text(s.subrange(i, j))) {
                lemma_selects(s, j, j, hi);
                let b = crate::statement::selects_end(s, j, j, hi);
                assert(crate::statement::operand_from(s, i, hi, wanted) == Some((i, b)));
                assert(i < j <= b <= hi);
            } else {
                lemma_operand(s, j, hi, wanted);
                if let Some((a, b)) = crate::statement::operand_from(s, j, hi, wanted) {
                    let e = choose|e: int|
                        a < e <= b <= hi && #[trigger] is_word(s, j, hi, a, e) && wanted(
                            crate::statement::ascii_text(s.subrange(a, e)),
                        );
                    assert(is_word(s, i, hi, a, e));
                    assert(crate::statement::operand_from(s, i, hi, wanted) == Some((a, b)));
                }
            }
        }
    }
}

proof fn lemma_selects(s: Seq<u8>, base: int, i: int, hi: int)
    requires
        base <= i <= hi,
    ensures
        base <= crate::statement::selects_end(s, base, i, hi) <= hi,
    decreases hi - i,
{
    let k = crate::statement::trim_start(s, i, hi);
    if i <= k < hi && s[k] == 91 {
        match crate::statement::bracket_end(s, k + 1, hi, 1) {
            Some(e) => {
                if e > i && e <= hi {
                    lemma_selects(s, base, e, hi);
                }
            },
            None => {},
        }
    }
}

/// An operand that is shown as driving stands behind an `=` of the statement, is no keyword,
/// and names a signal that is written at exactly the time asked for, other than the driven
/// one.
pub proof fn law_driving_operand<R: SimRunner>(
    run: R,
    signal: Seq<char>,
    i: int,
    t: u64,
    span: Span,
    s: Seq<u8>,
)
    requires
        crate::signal_names::signal_of(run.spec_names(), signal) == Some(i),
    ensures
        crate::sim_session::driving_token(run, signal, t, span, Some(s)) matches Some((a, b)) ==> {
            let name = run.spec_names()[i];
            &&& exists|eq: int| span.start <= eq < a && #[trigger] s[eq] == '=' as u8
            &&& exists|e: int|
                a < e <= b && #[trigger] is_word(s, span.start as int, span.end as int, a, e) && {
                    let w = crate::statement::ascii_text(s.subrange(a, e));
                    &&& w != crate::signal_names::leaf_of(name)
                    &&& ({
                        ||| written_under(run, w, i as u32, t)
                        ||| crate::signal_names::scope_of(name) is Some && written_under(
                            run,
                            crate::signal_names::scope_of(name).unwrap() + "__"@ + w,
                            i as u32,
                            t,
                        )
                    })
                }
        },
{
    let hi = span.end as int;
    let name = run.spec_names()[i];
    if let Some((a, b)) = crate::sim_session::driving_token(run, signal, t, span, Some(s)) {
        let eq = crate::statement::next_byte(s, span.start as int, hi, 61);
        lemma_next(s, span.start as int, hi, 61);
        let wanted = |w: Seq<char>|
            crate::sim_session::is_driving_word(run, w, name, i as u32, t);
        assert(crate::statement::operand_from(s, eq + 1, hi, wanted) == Some((a, b)));
        lemma_operand(s, eq + 1, hi, wanted);
        let e = choose|e: int|
            a < e <= b <= hi && #[trigger] is_word(s, eq + 1, hi, a, e) && wanted(
                crate::statement::ascii_text(s.subrange(a, e)),
            );
        assert(is_word(s, span.start as int, hi, a, e));
        assert(s[eq] == 61);
        let w = crate::statement::ascii_text(s.subrange(a, e));
        lemma_written(run, w, i as u32, t);
        if let Some(p) = crate::signal_names::scope_of(name) {
            lemma_written(run, p + "__"@ + w, i as u32, t);
        }
    }
}

proof fn lemma_next(s: Seq<u8>, lo: int, hi: int, b: u8)
    requires
        lo <= hi,
    ensures
        lo <= crate::statement::next_byte(s, lo, hi, b) <= hi,
        crate::statement::next_byte(s, lo, hi, b) < hi ==> s[crate::statement::next_byte(
            s,
            lo,
            hi,
            b,
        )] == b,
    decreases hi - lo,
{
    if lo < hi && s[lo] != b {
        lemma_next(s, lo + 1, hi, b);
    }
}

/// The name stands for a signal other than `target` that has a write at exactly `t`.
pub open spec fn written_under<R: SimRunner>(run: R, name: Seq<char>, target: u32, t: u64) -> bool {
    crate::signal_names::signal_of(run.spec_names(), name) matches Some(k) && k as u32 != target
        && exists|e: int|
        0 <= e < run.spec_events().len() && (#[trigger] run.spec_events()[e]).signal_idx
            == k as u32 && run.spec_events()[e].time_fs == t
}

proof fn lemma_written<R: SimRunner>(run: R, name: Seq<char>, target: u32, t: u64)
    ensures
        crate::sim_session::name_written(run, name, target, t) == written_under(
            run,
            name,
            target,
            t,
        ),
{
}

/// `u` is the last time up to `t` at which a statement was executed.
pub open spec fn is_last_activity(trace: Seq<TraceEntry>, t: u64, u: u64) -> bool {
    &&& u <= t
    &&& exists|i: int| 0 <= i < trace.len() && (#[trigger] trace[i]).time_fs == u
    &&& forall|i: int|
        0 <= i < trace.len() && (#[trigger] trace[i]).time_fs <= t ==> trace[i].time_fs <= u
}

/// The spans active at `t` are exactly those of the statements executed at the last time of
/// activity up to `t`, each once; there are none before the first activity.
pub proof fn law_active_spans(trace: Seq<TraceEntry>, t: u64, u: u64, span: Span)
    requires
        crate::trace::trace_sorted(trace),
    ensures
        crate::sim_session::active_spans(trace, t).no_duplicates(),
        is_last_activity(trace, t, u) ==> (crate::sim_session::active_spans(trace, t).contains(
            span,
        ) <==> exists|i: int|
            0 <= i < trace.len() && (#[trigger] trace[i]).time_fs == u && trace[i].span == span),
        (forall|i: int| 0 <= i < trace.len() ==> (#[trigger] trace[i]).time_fs > t)
            ==> crate::sim_session::active_spans(trace, t).len() == 0,
{
    crate::sim_session::law_active_spans_are_distinct(trace, t);
    lemma_last_activity(trace, t);
    if let Some(v) = crate::sim_session::last_activity(trace, t) {
        let hits = crate::trace::entries_at(trace, v);
        lemma_spans(hits, span);
        lemma_hits(trace, v);
        let active = crate::sim_session::active_spans(trace, t);
        if is_last_activity(trace, t, u) {
            let m = choose|m: int| 0 <= m < trace.len() && (#[trigger] trace[m]).time_fs == v;
            let n = choose|n: int| 0 <= n < trace.len() && (#[trigger] trace[n]).time_fs == u;
            assert(u == v);
            if active.contains(span) {
                let h = choose|h: int| 0 <= h < hits.len() && (#[trigger] hits[h]).span == span;
                let i = choose|i: int| 0 <= i < trace.len() && trace[i] == hits[h];
                assert(trace[i].time_fs == u && trace[i].span == span);
            }
            if exists|i: int|
                0 <= i < trace.len() && (#[trigger] trace[i]).time_fs == u && trace[i].span
                    == span {
                let i = choose|i: int|
                    0 <= i < trace.len() && (#[trigger] trace[i]).time_fs == u && trace[i].span
                        == span;
                let h = choose|h: int| 0 <= h < hits.len() && hits[h] == trace[i];
                assert(hits[h].span == span);
            }
        }
    } else {
        assert(crate::sim_session::active_spans(trace, t) =~= Seq::empty());
    }
}

proof fn lemma_last_activity(trace: Seq<TraceEntry>, t: u64)
    requires
        crate::trace::trace_sorted(trace),
    ensures
        match crate::sim_session::last_activity(trace, t) {
            Some(u) => is_last_activity(trace, t, u),
            None => forall|i: int| 0 <= i < trace.len() ==> (#[trigger] trace[i]).time_fs > t,
        },
    decreases trace.len(),
{
    if trace.len() > 0 {
        let rest = trace.drop_last();
        if trace.last().time_fs <= t {
            let u = trace.last().time_fs;
            assert(trace[trace.len() - 1].time_fs == u);
            assert forall|i: int|
                0 <= i < trace.len() && (#[trigger] trace[i]).time_fs <= t implies trace[i].time_fs
                <= u by {
                assert(trace[i].time_fs <= trace[trace.len() - 1].time_fs);
            }
        } else {
            assert forall|i: int, j: int| 0 <= i <= j < rest.len() implies rest[i].time_fs
                <= rest[j].time_fs by {
                assert(trace[i].time_fs <= trace[j].time_fs);
            }
            lemma_last_activity(rest, t);
            match crate::sim_session::last_activity(rest, t) {
                Some(u) => {
                    let i = choose|i: int|
                        0 <= i < rest.len() && (#[trigger] rest[i]).time_fs == u;
                    assert(trace[i].time_fs == u);
                    assert forall|k: int|
                        0 <= k < trace.len() && (
                        #[trigger] trace[k]).time_fs <= t implies trace[k].time_fs <= u by {
                        if k < rest.len() {
                            assert(rest[k] == trace[k]);
                        }
                    }
                },
                None => {
                    assert forall|k: int| 0 <= k < trace.len() implies (
                    #[trigger] trace[k]).time_fs > t by {
                        if k < rest.len() {
                            assert(rest[k] == trace[k]);
                        }
                    }
                },
            }
        }
    }
}

proof fn lemma_spans(entries: Seq<TraceEntry>, span: Span)
    ensures
        crate::sim_session::distinct_spans(entries).contains(span) <==> exists|h: int|
            0 <= h < entries.len() && (#[trigger] entries[h]).span == span,
    decreases entries.len(),
{
    if entries.len() > 0 {
        let rest = entries.drop_last();
        lemma_spans(rest, span);
        let before = crate::sim_session::distinct_spans(rest);
        let all = crate::sim_session::distinct_spans(entries);
        if exists|h: int| 0 <= h < rest.len() && (#[trigger] rest[h]).span == span {
            let h = choose|h: int| 0 <= h < rest.len() && (#[trigger] rest[h]).span == span;
            assert(entries[h].span == span);
        }
        if exists|h: int| 0 <= h < entries.len() && (#[trigger] entries[h]).span == span {
            let h = choose|h: int| 0 <= h < entries.len() && (#[trigger] entries[h]).span == span;
            if h < rest.len() {
                assert(rest[h].span == span);
            }
        }
        if all != before {
            assert(all == before.push(entries.last().span));
            assert(all[all.len() - 1] == entries.last().span);
            if all.contains(span) {
                let k = choose|k: int| 0 <= k < all.len() && all[k] == span;
                if k < before.len() {
                    assert(before[k] == span);
                } else {
                    assert(entries[entries.len() - 1].span == span);
                }
            }
            if before.contains(span) {
                let k = choose|k: int| 0 <= k < before.len() && before[k] == span;
                assert(all[k] == span);
            }
        }
    }
}

proof fn lemma_hits(trace: Seq<TraceEntry>, u: u64)
    ensures
        forall|h: int|
            0 <= h < crate::trace::entries_at(trace, u).len() ==> trace.contains(
                #[trigger] crate::trace::entries_at(trace, u)[h],
            ) && crate::trace::entries_at(trace, u)[h].time_fs == u,
        forall|i: int|
            0 <= i < trace.len() && (#[trigger] trace[i]).time_fs == u ==> crate::trace::entries_at(
                trace,
                u,
            ).contains(trace[i]),
    decreases trace.len(),
{
    reveal(Seq::filter);
    let hits = crate::trace::entries_at(trace, u);
    if trace.len() > 0 {
        let rest = trace.drop_last();
        lemma_hits(rest, u);
        let before = crate::trace::entries_at(rest, u);
        assert forall|h: int| 0 <= h < hits.len() implies trace.contains(#[trigger] hits[h])
            && hits[h].time_fs == u by {
            if h < before.len() {
                assert(hits[h] == before[h]);
                let i = choose|i: int| 0 <= i < rest.len() && rest[i] == before[h];
                assert(trace[i] == hits[h]);
            } else {
                assert(trace[trace.len() - 1] == hits[h]);
            }
        }
        assert forall|i: int|
            0 <= i < trace.len() && (#[trigger] trace[i]).time_fs == u implies hits.contains(
            trace[i],
        ) by {
            if i < rest.len() {
                assert(rest[i] == trace[i]);
                assert(before.contains(rest[i]));
                let h = choose|h: int| 0 <= h < before.len() && before[h] == rest[i];
                assert(hits[h] == trace[i]);
            } else {
                assert(hits[hits.len() - 1] == trace[i]);
            }
        }
    }
}

} // verus!
