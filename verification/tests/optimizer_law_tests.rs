//! What optimizing promises of whole modules and whole expressions.
use verilog_core::ir::{IrAssign, IrBinOp, IrExpr, IrModule, IrUnaryOp};
use verilog_core::optimizer::optimize_module_with_metrics;
use verilog_core::optimizer::rewrite::{fold_expr, peephole, sink_expr};
use verilog_core::source_map::{Span, SYNTHETIC_FILE};
use verilog_core::Port;

fn c(v: i64) -> IrExpr {
    IrExpr::Const(v)
}

fn id(s: &str) -> IrExpr {
    IrExpr::Ident(s.into())
}

fn bin(op: IrBinOp, l: IrExpr, r: IrExpr) -> IrExpr {
    IrExpr::Binary { op, left: Box::new(l), right: Box::new(r) }
}

fn pick(cond: IrExpr, t: IrExpr, e: IrExpr) -> IrExpr {
    IrExpr::Ternary { cond: Box::new(cond), then_expr: Box::new(t), else_expr: Box::new(e) }
}

fn module(assigns: Vec<(&str, IrExpr)>, outputs: &[&str]) -> IrModule {
    IrModule {
        name: "m".into(),
        path: "m.v".into(),
        ports: outputs
            .iter()
            .map(|n| Port { direction: Some("output".into()), name: n.to_string(), width: 1 })
            .collect(),
        nets: vec![],
        assigns: assigns
            .into_iter()
            .map(|(lhs, rhs)| IrAssign { lhs: lhs.into(), rhs, span: Span::dummy() })
            .collect(),
        instances: vec![],
        always_blocks: vec![],
        initial_blocks: vec![],
        mem_arrays: vec![],
        resolved_parameters: vec![],
        file_id: SYNTHETIC_FILE,
    }
}

fn texts(m: &IrModule) -> Vec<(String, IrExpr)> {
    m.assigns.iter().map(|a| (a.lhs.clone(), a.rhs.clone())).collect()
}

#[test]
fn an_optimized_module_is_left_alone() {
    let mut m = module(
        vec![
            ("t", bin(IrBinOp::Add, id("a"), c(0))),
            ("u", bin(IrBinOp::Mul, id("t"), c(8))),
            ("y", bin(IrBinOp::Xor, id("u"), bin(IrBinOp::Sub, c(7), c(3)))),
        ],
        &["y"],
    );
    let first = optimize_module_with_metrics(&mut m);
    assert!(first.algebraic_rewrites > 0);
    let n = first.score_history.len();
    assert!(n >= 2);
    assert_eq!(first.score_history[n - 1], first.score_history[n - 2]);
    let once = texts(&m);
    let second = optimize_module_with_metrics(&mut m);
    assert_eq!(texts(&m), once);
    assert_eq!(second.total_passes, 1);
    assert_eq!(second.score_history.len(), 1);
    assert_eq!(second.algebraic_rewrites, 0);
    assert_eq!(second.copies_propagated, 0);
    assert_eq!(second.dead_signals_removed, 0);
}

#[test]
fn copies_of_each_other_end_the_search() {
    let mut m = module(vec![("a", id("b")), ("b", id("a")), ("y", c(1))], &["y"]);
    let metrics = optimize_module_with_metrics(&mut m);
    assert!(metrics.total_passes >= 1);
    assert_eq!(m.assigns.iter().filter(|a| a.lhs == "y").count(), 1);
}

#[test]
fn a_constant_reaches_its_readers() {
    let mut m = module(
        vec![("k", bin(IrBinOp::Shl, c(3), c(2))), ("y", bin(IrBinOp::Or, id("k"), id("a")))],
        &["y"],
    );
    optimize_module_with_metrics(&mut m);
    assert_eq!(m.assigns.len(), 1);
    let read = &m.assigns[0].rhs;
    assert!(
        *read == bin(IrBinOp::Or, id("a"), c(12)) || *read == bin(IrBinOp::Or, c(12), id("a"))
    );
}

#[test]
fn folding_counts_what_it_replaces() {
    let mut e = bin(IrBinOp::Add, bin(IrBinOp::Mul, id("x"), c(1)), bin(IrBinOp::Sub, c(9), c(9)));
    let n = fold_expr(&mut e);
    assert_eq!(e, id("x"));
    assert_eq!(n, 3);
    assert_eq!(fold_expr(&mut e), 0);
    assert_eq!(e, id("x"));
}

#[test]
fn combining_turns_a_negated_addend_into_a_difference() {
    let neg = IrExpr::Unary { op: IrUnaryOp::Neg, operand: Box::new(id("b")) };
    let mut e = bin(IrBinOp::Add, id("a"), neg);
    assert_eq!(peephole(&mut e), 1);
    assert_eq!(e, bin(IrBinOp::Sub, id("a"), id("b")));
}

#[test]
fn sinking_drops_a_repeated_condition() {
    let mut e = pick(id("s"), pick(id("s"), id("a"), id("b")), id("d"));
    assert_eq!(sink_expr(&mut e), 1);
    assert_eq!(e, pick(id("s"), id("a"), id("d")));
}
