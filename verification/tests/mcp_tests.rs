//! Tools of the protocol server: waveform queries, excerpts, file names.
use verilog_core::ir::{IrModule, IrProject};
use verilog_core::mcp::{
    parse_step_mode, top_with_path, SimEndArgs, SimulateVcdArgs, SourceExcerptArgs,
    VcdFindEdgeArgs, VcdQueryArgs,
};
use verilog_core::sim_session::StepMode;
use verilog_core::simulate::{is_valid_entry_name, simulation_config, simulation_plan};
use verilog_core::source_map::SourceMap;
use verilog_core::waves::{
    bit01, bit_at_lsb_index, bits_for_signal, edge_matches, edge_matches_lsb_bit,
    normalize_bus_binary_msb, parse_bin_u128, parse_edge_kind, query_window, subsample_uniform,
    timescale_unit_label, EdgeKind, TimeUnit, WaveItem, WaveScope, WaveVar,
};

fn changes(values: &[(u32, &str)]) -> Vec<(u32, String)> {
    values.iter().map(|v| (v.0, v.1.to_string())).collect()
}

#[test]
fn binary_texts() {
    assert_eq!(parse_bin_u128(" 1010\n"), Some(10));
    assert_eq!(parse_bin_u128(&"1".repeat(128)), Some(u128::MAX));
    assert_eq!(parse_bin_u128(&format!("1{}", "0".repeat(128))), None);
    assert_eq!(parse_bin_u128(&format!("{}11", "0".repeat(200))), Some(3));
    assert_eq!(parse_bin_u128("1x"), None);
    assert_eq!(parse_bin_u128("  "), None);
    assert_eq!(bit01(" 1 "), Some(1));
    assert_eq!(bit01("0"), Some(0));
    assert_eq!(bit01("x"), None);
    assert_eq!(bit01("01"), None);
}

#[test]
fn edges_of_signals_and_buses() {
    assert!(edge_matches("0", "1", 1, EdgeKind::Rising));
    assert!(!edge_matches("x", "1", 1, EdgeKind::Rising));
    assert!(edge_matches("1", "0", 1, EdgeKind::Falling));
    assert!(edge_matches("x", "1", 1, EdgeKind::Any));
    assert!(!edge_matches("1", "1", 1, EdgeKind::Any));
    assert!(edge_matches("0011", "0100", 4, EdgeKind::Rising));
    assert!(edge_matches("0100", "0011", 4, EdgeKind::Falling));
    assert!(!edge_matches("0x00", "0011", 4, EdgeKind::Rising));
}

#[test]
fn edges_of_one_bit_of_a_bus() {
    assert_eq!(normalize_bus_binary_msb("1", 4), Some("0001".to_string()));
    assert_eq!(normalize_bus_binary_msb("110101", 4), Some("0101".to_string()));
    assert_eq!(normalize_bus_binary_msb("1z", 4), None);
    assert_eq!(bit_at_lsb_index("0100", 2, 4), Some(1));
    assert_eq!(bit_at_lsb_index("0100", 0, 4), Some(0));
    assert_eq!(bit_at_lsb_index("0100", 4, 4), None);
    assert_eq!(bit_at_lsb_index("0100", 0, 0), None);
    assert!(edge_matches_lsb_bit("0001", "0101", 4, 2, EdgeKind::Rising));
    assert!(!edge_matches_lsb_bit("0001", "0101", 4, 0, EdgeKind::Any));
    assert!(edge_matches_lsb_bit("0100", "0000", 4, 2, EdgeKind::Falling));
}

fn edge_args(next: bool, kind: &str, from_time: u64, bit_lsb: Option<u32>) -> VcdFindEdgeArgs {
    VcdFindEdgeArgs {
        path: "w.vcd".into(),
        signal_id: 1,
        from_time,
        next,
        edge_kind: kind.into(),
        bit_lsb,
    }
}

#[test]
fn the_nearest_edge_is_found() {
    let times = [0, 10, 20, 30, 40];
    let c = changes(&[(0, "0"), (1, "1"), (2, "0"), (3, "1"), (9, "0")]);
    assert_eq!(edge_args(true, "any", 0, None).edge(&c, &times, 1), Some(10));
    assert_eq!(edge_args(true, "RISING", 10, None).edge(&c, &times, 1), Some(30));
    assert_eq!(edge_args(true, "falling", 10, None).edge(&c, &times, 1), Some(20));
    assert_eq!(edge_args(true, "any", 30, None).edge(&c, &times, 1), None);
    assert_eq!(edge_args(false, "any", 30, None).edge(&c, &times, 1), Some(20));
    assert_eq!(edge_args(false, "rising", 30, None).edge(&c, &times, 1), Some(10));
    assert_eq!(edge_args(false, "rising", 10, None).edge(&c, &times, 1), None);
    let bus = changes(&[(0, "00"), (1, "01"), (2, "11")]);
    assert_eq!(edge_args(true, "any", 0, Some(1)).edge(&bus, &times, 2), Some(20));
    assert_eq!(parse_edge_kind("sideways"), EdgeKind::Any);
    assert_eq!(edge_args(true, "any", 0, None).edge(&changes(&[(0, "1")]), &times, 1), None);
}

fn query(t_start: u64, t_end: u64, cap: Option<usize>) -> VcdQueryArgs {
    VcdQueryArgs {
        path: "w.vcd".into(),
        signal_ids: vec![1],
        t_start,
        t_end,
        max_points_per_signal: cap,
    }
}

#[test]
fn a_window_starts_with_the_value_before_it() {
    let times = [0, 10, 20, 30];
    let c = changes(&[(0, "a"), (1, "b"), (3, "c")]);
    let row = |t: u64, v: &str| (t, v.to_string());
    assert_eq!(query(0, 30, None).rows(&c, &times), vec![row(0, "a"), row(10, "b"), row(30, "c")]);
    assert_eq!(query(15, 20, None).rows(&c, &times), vec![row(15, "b")]);
    assert_eq!(query(30, 15, None).rows(&c, &times), vec![row(15, "b"), row(30, "c")]);
    assert_eq!(query(10, 12, None).rows(&c, &times), vec![row(10, "b")]);
    assert_eq!(query(99, 200, None).rows(&c, &times), vec![row(30, "c")]);
    assert_eq!(query_window(&[], 5, 9), (0, 0));
    assert_eq!(query_window(&times, 99, 5), (5, 30));
}

#[test]
fn rows_are_thinned_to_the_cap() {
    let times: Vec<u64> = (0..100).collect();
    let c: Vec<(u32, String)> = (0..100).map(|i| (i, format!("{}", i / 2))).collect();
    assert!(query(0, 99, Some(0)).rows(&c, &times).is_empty());
    assert_eq!(query(0, 99, Some(1)).rows(&c, &times), vec![(0, "0".to_string())]);
    for cap in 2..120 {
        let rows = query(0, 99, Some(cap)).rows(&c, &times);
        assert!(rows.len() <= cap);
        assert_eq!(rows[0], (0, "0".to_string()));
        assert_eq!(rows.last().unwrap().1, "49");
        for w in rows.windows(2) {
            assert!(w[0].0 < w[1].0);
            assert!(cap >= 100 || w[0].1 != w[1].1);
        }
    }
    for (t, _) in query(20, 70, Some(7)).rows(&c, &times) {
        assert!((20..=70).contains(&t));
    }
    let few: Vec<(u64, String)> = (0..10).map(|i| (i, "v".to_string())).collect();
    assert_eq!(subsample_uniform(&few, 10, 0, 9).len(), 10);
    assert_eq!(subsample_uniform(&few, 4, 0, 9), vec![(0, "v".to_string())]);
    let steps: Vec<(u64, String)> = (0..9).map(|i| (i * 10, i.to_string())).collect();
    let row = |t: u64, v: &str| (t, v.to_string());
    assert_eq!(
        subsample_uniform(&steps, 3, 0, 80),
        vec![row(0, "0"), row(40, "4"), row(80, "8")]
    );
    assert!(subsample_uniform(&[], 3, 0, 80).is_empty());
}

#[test]
fn the_first_declaration_gives_the_width() {
    let var = |id: u32, bits: u32| WaveItem::Var(WaveVar { signal_id: id, name: "s".into(), bits: Some(bits) });
    let inner = WaveScope { name: "u".into(), items: vec![var(2, 8)] };
    let top = WaveScope { name: "top".into(), items: vec![var(1, 1), WaveItem::Scope(inner), var(2, 4)] };
    let scopes = vec![top, WaveScope { name: "other".into(), items: vec![var(3, 16)] }];
    assert_eq!(bits_for_signal(&scopes, 1), 1);
    assert_eq!(bits_for_signal(&scopes, 2), 8);
    assert_eq!(bits_for_signal(&scopes, 3), 16);
    assert_eq!(bits_for_signal(&scopes, 4), 1);
    let (inner_scopes, vars) = scopes[0].contents();
    assert_eq!((inner_scopes.len(), vars.len()), (1, 2));
    assert_eq!((inner_scopes[0].name.as_str(), vars[1].width()), ("u", 4));
    assert_eq!(WaveVar { signal_id: 9, name: "r".into(), bits: None }.width(), 1);
}

#[test]
fn labels_of_time_units() {
    assert_eq!(timescale_unit_label(TimeUnit::PicoSeconds), "ps");
    assert_eq!(timescale_unit_label(TimeUnit::AttoSeconds), "as");
    assert_eq!(timescale_unit_label(TimeUnit::Seconds), "s");
    assert_eq!(timescale_unit_label(TimeUnit::Unknown), "unknown");
}

fn excerpt_args(start: u32, end: u32, context_lines: Option<u32>) -> SourceExcerptArgs {
    SourceExcerptArgs { path: "s.v".into(), start, end, context_lines }
}

#[test]
fn an_excerpt_is_widened_to_whole_characters() {
    let text = "one\ntwα x\r\nthree\n";
    let e = excerpt_args(4, 9, None).excerpt(text).unwrap();
    assert_eq!(e.text, "twα ");
    assert_eq!((e.line_start, e.col_start), (2, 1));
    assert_eq!(e.context, None);
    let e = excerpt_args(7, 7, None).excerpt(text).unwrap();
    assert_eq!(e.text, "α");
    assert_eq!((e.line_start, e.col_start), (2, 3));
    let e = excerpt_args(0, 900, None).excerpt(text).unwrap();
    assert_eq!(e.text, text);
}

#[test]
fn context_lines_are_numbered() {
    let text = "one\ntwo\r\nthree\nfour\n";
    let e = excerpt_args(4, 7, Some(1)).excerpt(text).unwrap();
    assert_eq!(e.context.as_deref(), Some("   1 | one\n   2 | two\n   3 | three"));
    let e = excerpt_args(0, 1, Some(9)).excerpt(text).unwrap();
    assert_eq!(
        e.context.as_deref(),
        Some("   1 | one\n   2 | two\n   3 | three\n   4 | four")
    );
}

#[test]
fn context_stands_on_both_sides_of_the_span() {
    let text = "one\ntwo\nthree\nfour\nfive\nsix\n";
    let e = excerpt_args(5, 16, Some(1)).excerpt(text).unwrap();
    assert_eq!(e.text, "wo\nthree\nfo");
    assert_eq!(
        e.context.as_deref(),
        Some("   1 | one\n   2 | two\n   3 | three\n   4 | four\n   5 | five")
    );
    let e = excerpt_args(4, 8, Some(1)).excerpt(text).unwrap();
    assert_eq!(e.context.as_deref(), Some("   1 | one\n   2 | two\n   3 | three"));
}

#[test]
fn offsets_outside_the_text_are_refused() {
    let message = |start: u32, end: u32| excerpt_args(start, end, None).excerpt("αβ").err();
    assert_eq!(
        message(9, 10),
        Some("byte range 9..10 out of bounds for file of length 4".to_string())
    );
    assert_eq!(
        message(3, 2),
        Some("byte range 3..2 out of bounds for file of length 4".to_string())
    );
    assert_eq!(message(4, 4), None);
}

#[test]
fn output_names_have_no_path() {
    let sources = vec!["a.v".to_string()];
    let args = |f: Option<&str>| SimulateVcdArgs {
        root: "/p".into(),
        cycles: None,
        output_file: f.map(|s| s.to_string()),
    };
    assert_eq!(args(None).output_name(&sources), Ok("circuit_scope.vcd".to_string()));
    assert_eq!(args(Some("w.vcd")).output_name(&sources), Ok("w.vcd".to_string()));
    for bad in ["", "a/b", "a\\b"] {
        assert_eq!(
            args(Some(bad)).output_name(&sources),
            Err("output_file must be a file name only, no path separators".to_string())
        );
        assert!(!is_valid_entry_name(bad));
    }
    assert_eq!(
        args(None).output_name(&[]),
        Err("No Verilog sources (.v or .sv) found under this folder.".to_string())
    );
}

#[test]
fn a_session_file_is_kept_unless_told_otherwise() {
    assert!(SimEndArgs { session_id: 1, keep_vcd: None }.keeps());
    assert!(SimEndArgs { session_id: 1, keep_vcd: Some(true) }.keeps());
    assert!(!SimEndArgs { session_id: 1, keep_vcd: Some(false) }.keeps());
    assert_eq!(parse_step_mode("ToEnd"), Ok(StepMode::ToEnd));
    assert_eq!(parse_step_mode(""), Err("unknown step mode: ".to_string()));
}

fn module(name: &str, path: &str) -> IrModule {
    IrModule {
        name: name.into(),
        path: path.into(),
        ports: vec![],
        nets: vec![],
        assigns: vec![],
        instances: vec![],
        always_blocks: vec![],
        initial_blocks: vec![],
        mem_arrays: vec![],
        resolved_parameters: vec![],
        file_id: 0,
    }
}

#[test]
fn a_simulation_plan_names_top_output_and_delay_files() {
    let p = IrProject {
        modules: vec![module("alu", "alu.v"), module("alu_tb", "tb/alu_tb.v")],
        diagnostics: vec![],
        source_map: SourceMap::new(),
    };
    assert_eq!(
        top_with_path(&p),
        Ok(("alu_tb".to_string(), Some("tb/alu_tb.v".to_string())))
    );
    let plan = simulation_plan(&p, None, None, &[]).unwrap();
    assert_eq!(plan.top_module, "alu_tb");
    assert_eq!(plan.output_name, "circuit_scope.vcd");
    assert_eq!(plan.top_source_file.as_deref(), Some("tb/alu_tb.v"));
    assert_eq!(plan.delay_files, vec!["tb/alu_tb.v"]);
    let scaled = vec!["alu.v".to_string()];
    let plan = simulation_plan(&p, Some("alu"), Some("o.vcd"), &scaled).unwrap();
    assert_eq!((plan.top_module.as_str(), plan.output_name.as_str()), ("alu", "o.vcd"));
    assert_eq!(plan.delay_files, scaled);
    let lost = simulation_plan(&p, Some("none"), None, &[]).unwrap();
    assert!(lost.delay_files.is_empty());
    let empty = IrProject { modules: vec![], diagnostics: vec![], source_map: SourceMap::new() };
    assert_eq!(
        simulation_plan(&empty, None, None, &[]).err(),
        Some("no modules found in project".to_string())
    );
}

#[test]
fn a_planned_run_is_set_up_with_its_timescale_and_origin() {
    let p = IrProject {
        modules: vec![module("alu_tb", "tb/alu_tb.v")],
        diagnostics: vec![],
        source_map: SourceMap::new(),
    };
    let plan = || simulation_plan(&p, None, None, &[]).unwrap();
    let c = simulation_config(plan(), "1us", "1ps", None, 90, 450, "sim /p", "/p/o.vcd", Some("/p"));
    assert_eq!((c.top_module.as_str(), c.num_cycles), ("alu_tb", 90));
    assert_eq!((c.timescale.as_str(), c.timescale_precision.as_str()), ("1us", "1ps"));
    assert_eq!((c.clock_half_period, c.clock_half_period_is_explicit), (5, false));
    assert_eq!(c.initial_delay_sum_units, Some(450));
    let meta = c.vcd_meta.unwrap();
    assert_eq!(meta.top_source_file.as_deref(), Some("tb/alu_tb.v"));
    assert_eq!(meta.command_line.as_deref(), Some("sim /p"));
    assert_eq!(meta.output_vcd_path.as_deref(), Some("/p/o.vcd"));
    assert_eq!(meta.working_directory.as_deref(), Some("/p"));
    let c = simulation_config(plan(), "1ns", "1ns", Some(12), 90, 0, "", "o.vcd", None);
    assert_eq!(c.num_cycles, 12);
    assert_eq!(c.initial_delay_sum_units, None);
}
