//! Debugger sessions over a recorded run.
use verilog_core::ir::{IrModule, IrProject};
use verilog_core::mcp::SimEvalManyArgs;
use verilog_core::sessions::{start_result, unknown_session, DebuggerSessions, SessionEntry, SimSessions};
use verilog_core::sim_commands::{
    collect_active, driver_shown_at, eval_identifier, parse_mode, render, start_plan, step_result,
    DriverError,
};
use verilog_core::sim_session::{
    SessionRegistry, SimConfig, SimRunner, SimSession, StepMode, StepOutcome,
};
use verilog_core::source_map::{SourceMap, Span};
use verilog_core::trace::{BranchChoice, DriverEvent, TraceEntry};
use verilog_core::SourceFile;

const SRC: &str = "module m(output wire q);\n  assign q = clk ? a : b;\n  always #5 clk = ~clk;\n  always @* x = 1;\nendmodule\n";

/// A run that was recorded: statements at 0, 10 and 20.
struct Recorded {
    trace: Vec<TraceEntry>,
    events: Vec<DriverEvent>,
    names: Vec<String>,
    aliases: Vec<(String, String)>,
    values: Vec<(i64, usize)>,
    time: u64,
    vcd: String,
}

fn offset(part: &str) -> u32 {
    SRC.find(part).unwrap() as u32
}

fn span(part: &str) -> Span {
    let start = offset(part);
    Span::new(0, start, start + part.len() as u32)
}

fn recorded() -> Recorded {
    let assign = span("assign q = clk ? a : b;");
    let toggle = span("clk = ~clk;");
    Recorded {
        trace: vec![
            TraceEntry::new(0, assign),
            TraceEntry::new(10, toggle),
            TraceEntry::new(10, assign),
            TraceEntry::new(10, toggle),
            TraceEntry::new(20, toggle),
        ],
        events: vec![
            DriverEvent::new(0, 0, assign, Some(BranchChoice::Else), 2),
            DriverEvent::new(10, 1, toggle, None, 1),
            DriverEvent::new(10, 0, assign, Some(BranchChoice::Then), 5),
            DriverEvent::new(20, 1, toggle, None, 0),
        ],
        names: vec!["q".into(), "clk".into(), "u__x".into()],
        aliases: vec![],
        values: vec![(5, 4), (0, 1), (-1, 8)],
        time: 0,
        vcd: "$enddefinitions $end\n".into(),
    }
}

impl SimRunner for Recorded {
    fn step_until(&mut self, mode: StepMode, _clock_signal: Option<&str>) -> StepOutcome {
        if self.time >= 20 {
            return StepOutcome::End;
        }
        self.time = if mode == StepMode::ToEnd { 20 } else { self.time + 10 };
        self.vcd.push_str(&format!("#{}\n", self.time));
        StepOutcome::Advanced { t_sim: self.time, ran_statements: 2 }
    }

    fn vcd_buffer(&self) -> &str {
        &self.vcd
    }

    fn trace(&self) -> &[TraceEntry] {
        &self.trace
    }

    fn driver_events(&self) -> &[DriverEvent] {
        &self.events
    }

    fn signal_names(&self) -> &[String] {
        &self.names
    }

    fn static_driver(&self, signal: &str) -> Option<Span> {
        if signal == "u__x" {
            Some(span("x = 1;"))
        } else {
            None
        }
    }

    fn port_alias(&self, signal: &str) -> Option<String> {
        self.aliases.iter().find(|a| a.0 == signal).map(|a| a.1.clone())
    }

    fn signal_index_of(&self, signal: &str) -> Option<u32> {
        self.names.iter().position(|n| n == signal).map(|i| i as u32)
    }

    fn current_time_fs(&self) -> u64 {
        self.time
    }

    fn eval_signal(&self, name: &str) -> Option<(i64, usize)> {
        self.names.iter().position(|n| n == name).map(|i| self.values[i])
    }
}

fn module(name: &str) -> IrModule {
    IrModule {
        name: name.into(),
        path: "m.v".into(),
        ports: vec![],
        nets: vec![],
        assigns: vec![],
        instances: vec![],
        always_blocks: vec![],
        initial_blocks: vec![],
        mem_arrays: vec![],
        resolved_parameters: vec![],
        file_id: 0,
    }
}

fn project() -> IrProject {
    let mut source_map = SourceMap::new();
    source_map.intern("m.v", SRC);
    IrProject { modules: vec![module("m")], diagnostics: vec![], source_map }
}

fn sources() -> Vec<SourceFile> {
    vec![SourceFile::new("m.v", SRC)]
}

fn session(project: &IrProject) -> SimSession<Recorded> {
    let config = SimConfig { top_module: "m".into(), num_cycles: 4, ..SimConfig::default() };
    SimSession::start(project, config, "/tmp/m.vcd", Ok(recorded())).ok().unwrap()
}

#[test]
fn a_session_starts_where_its_simulator_stands() {
    let p = project();
    let s = session(&p);
    assert_eq!(s.current_time_fs(), 0);
    assert_eq!(s.vcd_path(), "/tmp/m.vcd");
    assert_eq!(s.config().top_module, "m");
    assert_eq!(s.config().num_cycles, 4);
    assert_eq!(s.source_files(), &[(0u16, "m.v".to_string())]);
    assert!(s.vcd_text().contains("$enddefinitions"));
    let config = SimConfig { top_module: "m".into(), num_cycles: 4, ..SimConfig::default() };
    let failed: Result<SimSession<Recorded>, String> =
        SimSession::start(&p, config, "x", Err("no top".to_string()));
    assert_eq!(failed.err(), Some("no top".to_string()));
}

#[test]
fn stepping_reports_time_spans_and_the_end() {
    let p = project();
    let mut s = session(&p);
    let outcome = s.step(StepMode::OneTick, None);
    let r = step_result(&s, &p, outcome);
    assert_eq!((r.time_fs, r.ran_statements, r.done), (10, 2, false));
    assert_eq!(r.active_spans.len(), 2);
    s.step(StepMode::ToEnd, None);
    let outcome = s.step(StepMode::ToEnd, None);
    assert_eq!(outcome, StepOutcome::End);
    assert!(step_result(&s, &p, outcome).done);
    assert!(s.vcd_text().ends_with("#20\n"));
}

#[test]
fn active_spans_are_those_of_the_last_activity_each_once() {
    let p = project();
    let s = session(&p);
    assert_eq!(s.active_spans_at(10).len(), 2);
    assert_eq!(s.active_spans_at(15), s.active_spans_at(10));
    assert_eq!(s.active_spans_at(0).len(), 1);
    let infos = collect_active(&s, &p, 99);
    assert_eq!(infos.len(), 1);
    assert_eq!((infos[0].path.as_str(), infos[0].line_start, infos[0].col_start), ("m.v", 3, 13));
}

#[test]
fn values_now_and_then() {
    let p = project();
    let s = session(&p);
    assert_eq!(s.eval_signal("q"), Some((5, 4)));
    assert_eq!(s.eval_signal_resolved("m.q"), Some((5, 4, "q".to_string())));
    assert_eq!(s.eval_signal_resolved("m.u.x"), Some((-1, 8, "u__x".to_string())));
    assert_eq!(s.eval_signal_resolved("nothing"), None);
    assert_eq!(s.eval_signal_at_or_before("q", 5).map(|r| r.0), Some(2));
    assert_eq!(s.eval_signal_at_or_before("q", 10).map(|r| r.0), Some(5));
    assert_eq!(s.transition_info_at("q", 10), Some((2, 5)));
    assert!(s.is_transitioning_at("q", 10));
    assert!(!s.is_transitioning_at("q", 15));
}

#[test]
fn a_write_of_the_same_value_is_a_transition() {
    let p = project();
    let mut run = recorded();
    run.events.push(DriverEvent::new(30, 1, span("clk = ~clk;"), None, 0));
    let config = SimConfig { top_module: "m".into(), ..SimConfig::default() };
    let s = SimSession::start(&p, config, "/tmp/m.vcd", Ok(run)).ok().unwrap();
    assert!(s.is_transitioning_at("clk", 30));
    assert_eq!(s.transition_info_at("clk", 30), Some((0, 0)));
    let shown = eval_identifier(&s, &p, "clk", None, Some(30)).unwrap();
    assert!(shown.transitioning);
    assert_eq!(shown.decimal, "0");
    assert_eq!(shown.prev_decimal.as_deref(), Some("0"));
    assert_eq!(s.transition_info_at("q", 0), Some((0, 2)));
    assert_eq!(s.transition_info_at("clk", 29), None);
    assert!(!s.is_transitioning_at("nothing", 30));
}

#[test]
fn the_written_operand_is_the_driving_token() {
    let p = project();
    let s = session(&p);
    let token = |text: &str, t: u64| {
        let stmt = Span::new(0, 0, text.len() as u32);
        s.driving_token_span_at("q", t, stmt, Some(text.as_bytes()))
            .map(|r| text[r.start as usize..r.end as usize].to_string())
    };
    assert_eq!(token("q = b + clk + a;", 10).as_deref(), Some("clk"));
    assert_eq!(token("q = clk & b;", 20).as_deref(), Some("clk"));
    assert_eq!(token("q = b & clk[0] ;", 10).as_deref(), Some("clk[0]"));
    assert_eq!(token("q = clk [2][1] | b;", 10).as_deref(), Some("clk [2][1]"));
    assert_eq!(token("q = clk & b;", 15), None);
    assert_eq!(token("q = a & b;", 10), None);
    assert!(s.driving_token_span_at("q", 10, Span::new(0, 0, 5), None).is_none());
}

#[test]
fn a_plain_setup_has_only_defaults() {
    let c = SimConfig::default();
    assert_eq!(c.num_cycles, 64);
    assert_eq!((c.timescale.as_str(), c.timescale_precision.as_str()), ("1ns", "1ns"));
    assert_eq!((c.clock_half_period, c.clock_half_period_is_explicit), (5, false));
    assert_eq!(c.initial_delay_sum_units, None);
    assert!(c.vcd_meta.is_none());
    let (planned, _) = start_plan(&project(), None, Some(7), None).unwrap();
    assert_eq!(planned.num_cycles, 7);
    assert_eq!(planned.timescale, c.timescale);
    assert!(planned.vcd_meta.is_none());
}

#[test]
fn an_identifier_is_shown_in_three_notations() {
    let p = project();
    let s = session(&p);
    let now = eval_identifier(&s, &p, "u.x", None, None).unwrap();
    assert_eq!(now.decimal, "255");
    assert_eq!(now.hex, "0xFF");
    assert_eq!(now.binary, "0b11111111");
    assert!(!now.transitioning);
    let then = eval_identifier(&s, &p, "q", Some("m.v"), Some(10)).unwrap();
    assert_eq!((then.decimal.as_str(), then.binary.as_str()), ("5", "0b0101"));
    assert!(then.transitioning);
    assert_eq!(then.prev_decimal.as_deref(), Some("2"));
    assert_eq!(then.prev_hex.as_deref(), Some("0x2"));
    assert_eq!(then.prev_binary.as_deref(), Some("0b0010"));
    let tried = eval_identifier(&s, &p, "nope", Some("m.v"), None).err().unwrap();
    assert_eq!(tried, vec!["nope", "m.nope", "m.nope"]);
}

#[test]
fn values_are_masked_to_their_width() {
    assert_eq!(render(-1, 3), ("7".to_string(), "0x7".to_string(), "0b111".to_string()));
    assert_eq!(render(-1, 64).1, "0xFFFFFFFFFFFFFFFF");
    assert_eq!(render(0, 0), ("0".to_string(), "0x0".to_string(), "0b0".to_string()));
}

#[test]
fn many_identifiers_are_evaluated_in_order() {
    let p = project();
    let s = session(&p);
    let args = SimEvalManyArgs {
        session_id: 0,
        identifiers: vec!["clk".into(), "nope".into(), "q".into()],
        file_path: None,
        time_fs: Some(10),
    };
    let all = args.evaluate(&s, &p);
    let values: Vec<Option<String>> =
        all.iter().map(|e| e.1.as_ref().map(|v| v.decimal.clone())).collect();
    assert_eq!(values, vec![Some("1".to_string()), None, Some("5".to_string())]);
    assert_eq!(all[1].0, "nope");
}

#[test]
fn the_driver_is_the_statement_that_wrote_last() {
    let p = project();
    let s = session(&p);
    let d = s.driver_at(&p, &sources(), "m.q", 12).unwrap();
    assert_eq!(d.resolved_signal, "q");
    assert_eq!(d.path, "m.v");
    assert_eq!(d.stmt_span, span("assign q = clk ? a : b;"));
    assert_eq!(d.branch, Some(BranchChoice::Then));
    assert!(s.driver_at(&p, &sources(), "nothing", 12).is_none());
}

#[test]
fn without_a_write_the_driver_is_the_static_one() {
    let p = project();
    let s = session(&p);
    let d = s.driver_at(&p, &sources(), "u.x", 0).unwrap();
    assert_eq!(d.stmt_span, span("x = 1;"));
    assert_eq!(d.branch, None);
}

#[test]
fn a_connected_signal_is_driven_where_its_source_is_written() {
    let p = project();
    let run = |aliases: &[(&str, &str)]| {
        let mut run = recorded();
        run.names.push("led".into());
        run.names.push("pin".into());
        run.values.extend([(0, 1), (0, 1)]);
        run.aliases = aliases.iter().map(|a| (a.0.to_string(), a.1.to_string())).collect();
        let config = SimConfig { top_module: "m".into(), ..SimConfig::default() };
        SimSession::start(&p, config, "/tmp/m.vcd", Ok(run)).ok().unwrap()
    };
    let s = run(&[("led", "pin"), ("pin", "u__x")]);
    let d = s.driver_at(&p, &sources(), "m.led", 0).unwrap();
    assert_eq!(d.resolved_signal, "led");
    assert_eq!(d.stmt_span, span("x = 1;"));
    assert_eq!(d.branch, None);
    let s = run(&[("led", "q")]);
    let d = s.driver_at(&p, &sources(), "led", 12).unwrap();
    assert_eq!(d.stmt_span, span("assign q = clk ? a : b;"));
    assert_eq!(d.branch, Some(BranchChoice::Then));
    let s = run(&[("led", "pin"), ("pin", "led")]);
    assert!(s.driver_at(&p, &sources(), "led", 12).is_none());
    let s = run(&[("led", "elsewhere")]);
    assert!(s.driver_at(&p, &sources(), "led", 12).is_none());
}

#[test]
fn the_chosen_arm_and_the_condition_are_shown() {
    let p = project();
    let s = session(&p);
    let d = driver_shown_at(&s, &p, &sources(), "q", 10).unwrap();
    let text = |a: Option<u32>, b: Option<u32>| {
        SRC[a.unwrap() as usize..b.unwrap() as usize].trim().to_string()
    };
    assert_eq!(text(d.branch_start, d.branch_end), "a");
    assert_eq!(text(d.cond_start, d.cond_end), "clk");
    assert!(d.stmt_start <= d.branch_start.unwrap() && d.branch_end.unwrap() <= d.stmt_end);
    assert_eq!(
        driver_shown_at(&s, &p, &sources(), "nothing", 10).err(),
        Some(DriverError::Unresolved)
    );
    assert_eq!(driver_shown_at(&s, &p, &[], "q", 10).err(), Some(DriverError::Unreadable));
}

#[test]
fn step_modes_by_name() {
    assert_eq!(parse_mode("statement"), Ok(StepMode::OneStatement));
    assert_eq!(parse_mode("OneTick"), Ok(StepMode::OneTick));
    assert_eq!(parse_mode("cycle"), Ok(StepMode::OneCycle));
    assert_eq!(parse_mode("run"), Ok(StepMode::ToEnd));
    assert_eq!(parse_mode("Run"), Err("unknown step mode: Run".to_string()));
}

#[test]
fn a_start_plan_fills_in_what_is_not_said() {
    let p = project();
    let (config, name) = start_plan(&p, None, None, None).unwrap();
    assert_eq!((config.top_module.as_str(), config.num_cycles), ("m", 64));
    assert_eq!(name, "debug.vcd");
    let (config, name) = start_plan(&p, Some("other"), Some(3), Some("w.vcd")).unwrap();
    assert_eq!((config.top_module.as_str(), config.num_cycles), ("other", 3));
    assert_eq!(name, "w.vcd");
    assert_eq!(
        start_plan(&p, None, None, Some("a/b.vcd")).err(),
        Some("vcdFilename must be a file name only".to_string())
    );
    let empty = IrProject { modules: vec![], diagnostics: vec![], source_map: SourceMap::new() };
    assert_eq!(
        start_plan(&empty, None, None, None).err(),
        Some("no modules found in project".to_string())
    );
}

#[test]
fn sessions_are_kept_by_id() {
    let p = project();
    let entry = SessionEntry { session: session(&p), project: project() };
    let (all, a) = SimSessions::new().insert(entry);
    let entry = SessionEntry { session: session(&p), project: project() };
    let (all, b) = all.insert(entry);
    assert_eq!((a, b), (0, 1));
    assert_eq!(all.ids().len(), 2);
    let started = start_result(a, &all.get(a).unwrap().session);
    assert_eq!((started.session_id, started.time_fs), (0, 0));
    assert_eq!(started.vcd_path, "/tmp/m.vcd");
    assert_eq!(started.source_files[0].path, "m.v");
    let (all, outcome) = all.step(b, StepMode::OneTick, None);
    assert_eq!(outcome, Ok(StepOutcome::Advanced { t_sim: 10, ran_statements: 2 }));
    assert_eq!(all.get(a).unwrap().session.current_time_fs(), 0);
    assert_eq!(all.get(b).unwrap().session.current_time_fs(), 10);
    let (all, taken) = all.remove(a);
    assert!(taken.is_some());
    assert!(all.get(a).is_none());
    let (all, again) = all.remove(a);
    assert!(again.is_none());
    let (all, missing) = all.step(a, StepMode::ToEnd, None);
    assert_eq!(missing, Err("unknown sessionId: 0".to_string()));
    assert_eq!(all.ids(), vec![1]);
    assert_eq!(unknown_session(7), "unknown sessionId: 7");
    let front: DebuggerSessions<Recorded> = DebuggerSessions::new();
    assert!(front.inner.ids().is_empty());
}

#[test]
fn ids_are_never_handed_out_twice() {
    let mut r = SessionRegistry::new();
    assert_eq!((r.alloc_id(), r.alloc_id(), r.alloc_id()), (0, 1, 2));
}
