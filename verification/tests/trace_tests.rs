//! Trace and driver queries.
use verilog_core::source_map::Span;
use verilog_core::trace::{
    driver_latest_at_or_before, trace_at, trace_latest_at_or_before, BranchChoice, DriverEvent,
    TraceEntry,
};

fn entry(t: u64, file: u16, start: u32, end: u32) -> TraceEntry {
    TraceEntry::new(t, Span::new(file, start, end))
}

#[test]
fn trace_at_returns_contiguous_range() {
    let entries = vec![
        entry(0, 0, 1, 2),
        entry(10, 0, 3, 4),
        entry(10, 0, 5, 6),
        entry(10, 0, 7, 8),
        entry(20, 0, 9, 10),
    ];
    let at_10 = trace_at(&entries, 10);
    assert_eq!(at_10.len(), 3);
    assert!(trace_at(&entries, 5).is_empty());
    assert_eq!(trace_at(&entries, 0).len(), 1);
}

#[test]
fn latest_at_or_before_handles_empty_and_gaps() {
    let entries = vec![entry(5, 0, 1, 2), entry(10, 0, 3, 4)];
    assert_eq!(trace_latest_at_or_before(&entries, 0), None);
    assert_eq!(trace_latest_at_or_before(&entries, 5), Some(&entries[0]));
    assert_eq!(trace_latest_at_or_before(&entries, 7), Some(&entries[0]));
    assert_eq!(trace_latest_at_or_before(&entries, 100), Some(&entries[1]));
}

#[test]
fn driver_latest_at_or_before_picks_nearest_earlier() {
    // Hand-built driver events to exercise the signal+time filter without
    // running a full simulator — the search semantics are what we care about
    // for "Jump to Driver" robustness.
    let a = Span::new(0, 1, 2);
    let b = Span::new(0, 3, 4);
    let events = vec![
        DriverEvent::new(0, 0, a, None, 0),
        DriverEvent::new(10, 1, a, Some(BranchChoice::Then), 1),
        DriverEvent::new(20, 0, b, Some(BranchChoice::Else), 0),
        DriverEvent::new(30, 1, b, Some(BranchChoice::Else), 0),
    ];

    assert_eq!(
        driver_latest_at_or_before(&events, 0, 5).map(|e| e.time_fs),
        Some(0),
        "signal 0 at t=5 should resolve to the t=0 event"
    );
    assert_eq!(
        driver_latest_at_or_before(&events, 0, 25).map(|e| e.time_fs),
        Some(20),
        "signal 0 at t=25 should resolve to the t=20 event"
    );
    assert_eq!(
        driver_latest_at_or_before(&events, 1, 15).map(|e| e.time_fs),
        Some(10),
        "signal 1 at t=15 should skip later-but-wrong-signal events"
    );
    assert!(
        driver_latest_at_or_before(&events, 7, 100).is_none(),
        "unknown signal index returns None"
    );
    assert!(
        driver_latest_at_or_before(&events, 1, 0).is_none(),
        "no events at or before t=0 for signal 1"
    );
}
