//! Source lists, project summaries and top modules.
use verilog_core::ir::{IrInitial, IrInstance, IrModule, IrProject, StmtBlock};
use verilog_core::paths::{
    is_skipped_dir, is_unanalyzed_dir, is_verilog_file, list_verilog_source_paths,
    module_looks_like_testbench, source_file_looks_like_testbench, tb_path_rank,
};
use verilog_core::project::{find_top_module, index_project};
use verilog_core::semantic::analyze_project;
use verilog_core::signal_names::{join_scope, resolve_signal, split_scope};
use verilog_core::source_map::SourceMap;
use verilog_core::statement::{
    contains_word, find_assign_stmt_for_lhs, find_top_level, rhs_expr_span, span_assigns_to_lhs,
    span_assigns_to_signal, ternary_sub_spans,
};
use verilog_core::trace::BranchChoice;
use verilog_core::{Diagnostic, Severity, SourceFile};

#[test]
fn sources_are_told_by_their_extension() {
    assert!(is_verilog_file("a/b.v"));
    assert!(is_verilog_file("B.SV"));
    assert!(!is_verilog_file("b.vcd"));
    assert!(!is_verilog_file("v"));
}

#[test]
fn testbenches_come_first() {
    let found = ["z.v", "tb_top.v", "a/alu.v", "a/alu_tb.v", "b.sv"];
    let listed = list_verilog_source_paths(found.iter().map(|s| s.to_string()).collect());
    let rank: Vec<u8> = listed.iter().map(|p| tb_path_rank(p)).collect();
    assert!(rank.windows(2).all(|w| w[0] <= w[1]));
    assert_eq!(listed.len(), 5);
    assert!(source_file_looks_like_testbench("x/TB_top.v"));
    assert!(!source_file_looks_like_testbench("tb/top.v"));
    assert!(module_looks_like_testbench("My_TestBench"));
    assert!(!module_looks_like_testbench("table"));
}

#[test]
fn build_folders_are_skipped() {
    assert!(is_skipped_dir("target"));
    assert!(is_skipped_dir("node_modules"));
    assert!(!is_skipped_dir("rtl"));
    assert!(!is_unanalyzed_dir("rtl"));
}

fn module(name: &str, path: &str, uses: &[&str]) -> IrModule {
    IrModule {
        name: name.into(),
        path: path.into(),
        ports: vec![],
        nets: vec![],
        assigns: vec![],
        instances: uses
            .iter()
            .map(|u| IrInstance {
                module_name: u.to_string(),
                parameter_assignments: vec![],
                instance_name: "u".into(),
                connections: vec![],
            })
            .collect(),
        always_blocks: vec![],
        initial_blocks: vec![],
        mem_arrays: vec![],
        resolved_parameters: vec![],
        file_id: 0,
    }
}

fn top(modules: Vec<IrModule>) -> Result<String, String> {
    find_top_module(&IrProject { modules, diagnostics: vec![], source_map: SourceMap::new() })
}

#[test]
fn the_top_module_is_a_root() {
    let m = |n: &str, uses: &[&str]| module(n, "x.v", uses);
    assert_eq!(top(vec![m("a", &["b"]), m("b", &[])]), Ok("a".to_string()));
    assert_eq!(top(vec![m("zz", &[]), m("cpu_tb", &[])]), Ok("cpu_tb".to_string()));
    assert_eq!(
        top(vec![m("tb_a", &[]), m("tb_b", &[]), m("zz", &[])]),
        Ok("tb_b".to_string())
    );
    assert_eq!(
        top(vec![module("p", "sim/tb_p.v", &[]), m("zz", &[])]),
        Ok("p".to_string())
    );
    assert_eq!(top(vec![m("a", &["b"]), m("b", &["a"])]), Err("no modules found in project".to_string()));
    assert_eq!(top(vec![m("a", &["x"]), m("b", &[])]), Ok("a".to_string()));
    assert_eq!(top(vec![m("a", &[]), m("b", &[])]), Ok("b".to_string()));
    let mut with_initial = m("a", &[]);
    with_initial.initial_blocks.push(IrInitial { stmts: StmtBlock::new() });
    assert_eq!(top(vec![with_initial, m("b", &[])]), Ok("a".to_string()));
}

#[test]
fn a_project_is_indexed_and_summarized() {
    let files = vec![
        SourceFile::new("top.v", "module top(output y); wire [3:0] w; leaf u0 (.q(w[0])); assign y = w[0]; endmodule"),
        SourceFile::new("leaf.v", "module leaf(output reg q); initial q = 0; endmodule module spare; endmodule"),
    ];
    let index = index_project(&files);
    let names: Vec<(&str, &str)> =
        index.modules.iter().map(|m| (m.name.as_str(), m.path.as_str())).collect();
    assert_eq!(names, vec![("top", "top.v"), ("leaf", "leaf.v"), ("spare", "leaf.v")]);
    let p = analyze_project(&files);
    assert!(p.diagnostics.is_empty());
    assert_eq!(p.top_modules, vec!["top", "spare"]);
    assert_eq!(p.modules[0].instances[0].module_name, "leaf");
    assert_eq!(p.modules[0].instances[0].instance_name, "u0");
    assert_eq!(p.modules[0].assigns[0].lhs, "y");
    assert!(p.modules[0].nets.contains(&"w".to_string()));
}

#[test]
fn a_module_that_holds_itself_is_still_a_top() {
    let p = analyze_project(&[SourceFile::new(
        "r.v",
        "module r; r again(); leaf u(); endmodule module leaf; endmodule",
    )]);
    assert_eq!(p.top_modules, vec!["r"]);
}

#[test]
fn diagnostics_on_one_line() {
    let d = |severity: Severity, path: &str| Diagnostic {
        message: "m".into(),
        severity,
        line: 3,
        column: 14,
        path: path.into(),
    };
    assert_eq!(d(Severity::Warning, "a.v").format_line(), "a.v:3:14: warning: m");
    assert_eq!(d(Severity::Info, "").format_line(), "<unknown>:3:14: info: m");
}

#[test]
fn signal_names_in_every_form() {
    let names: Vec<String> = ["q", "u__x", "a.b"].iter().map(|s| s.to_string()).collect();
    let found = |n: &str| resolve_signal(&names, n).map(|r| r.0);
    assert_eq!(found("q"), Some(0));
    assert_eq!(found("top.q"), Some(0));
    assert_eq!(found("top.u.x"), Some(1));
    assert_eq!(found("a.b"), Some(2));
    assert_eq!(found("zzz"), None);
    assert_eq!(split_scope("a__b__c"), (Some("a__b".to_string()), "c".to_string()));
    assert_eq!(split_scope("c"), (None, "c".to_string()));
    assert_eq!(join_scope("a", "b"), "a__b");
}

#[test]
fn parts_of_a_conditional_assignment() {
    let src = b"assign y = (a ? b : c) ? d[1:0] : e;";
    let end = src.len() as u32;
    let part = |r: Option<(u32, u32)>| {
        let (a, b) = r.unwrap();
        String::from_utf8(src[a as usize..b as usize].to_vec()).unwrap().trim().to_string()
    };
    let (cond, then_arm) = ternary_sub_spans(src, 0, end, BranchChoice::Then);
    assert_eq!(part(then_arm), "d[1:0]");
    assert_eq!(part(cond), "(a ? b : c)");
    let (_, else_arm) = ternary_sub_spans(src, 0, end, BranchChoice::Else);
    assert_eq!(part(else_arm), "e");
    assert_eq!(part(rhs_expr_span(src, 0, end)), "(a ? b : c) ? d[1:0] : e");
    assert_eq!(find_top_level(src, 11, src.len(), b'?'), Some(23));
    assert_eq!(rhs_expr_span(src, 5, 2), None);
}

#[test]
fn each_question_mark_has_its_own_colon() {
    let part = |src: &str, choice: BranchChoice| {
        let (cond, arm) = ternary_sub_spans(src.as_bytes(), 0, src.len() as u32, choice);
        let text = |r: Option<(u32, u32)>| {
            let (a, b) = r.unwrap();
            src[a as usize..b as usize].trim().to_string()
        };
        (text(cond), text(arm))
    };
    let pair = |a: &str, b: &str| (a.to_string(), b.to_string());
    let nested = "q = s ? t ? a : b : c;";
    assert_eq!(part(nested, BranchChoice::Then), pair("s", "t ? a : b"));
    assert_eq!(part(nested, BranchChoice::Else), pair("s", "c"));
    let chained = "q = s ? a : t ? b : c;";
    assert_eq!(part(chained, BranchChoice::Then), pair("s", "a"));
    assert_eq!(part(chained, BranchChoice::Else), pair("s", "t ? b : c"));
    let both = "q = s ? t ? a : b : u ? c : d;";
    assert_eq!(part(both, BranchChoice::Then), pair("s", "t ? a : b"));
    assert_eq!(part(both, BranchChoice::Else), pair("s", "u ? c : d"));
}

#[test]
fn assignments_to_a_name() {
    let src: &[u8] = b"wire x;\nassign xx = 1;\n  assign x = xx;\n";
    assert_eq!(find_assign_stmt_for_lhs(src, b"x"), Some((23, 39)));
    assert_eq!(find_assign_stmt_for_lhs(src, b"y"), None);
    assert!(contains_word(src, 0, src.len(), b"xx"));
    assert!(!contains_word(b"xx", 0, 2, b"x"));
    assert!(span_assigns_to_lhs(Some(src), 25, 39, b"x"));
    assert!(!span_assigns_to_lhs(Some(src), 8, 22, b"x"));
    assert!(span_assigns_to_signal(Some(src), 25, 39, b"x"));
    assert!(!span_assigns_to_signal(Some(src), 8, 22, b"y"));
}
