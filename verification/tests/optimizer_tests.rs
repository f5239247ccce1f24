//! Optimizer: folding, rewriting, propagation, inlining and unrolling.
use verilog_core::ir::{
    IrAssign, IrBinOp, IrExpr, IrInitial, IrInstance, IrModule, IrNet, IrPortConn, IrProject,
    IrStmt, IrUnaryOp, StmtBlock,
};
use verilog_core::optimizer::domain::{infer_value_domains, ValueDomain};
use verilog_core::optimizer::unroll::unroll_loops;
use verilog_core::optimizer::{optimize_module, optimize_module_with_metrics, optimize_project};
use verilog_core::source_map::{SourceMap, Span, SYNTHETIC_FILE};
use verilog_core::Port;

fn make_module(assigns: Vec<IrAssign>, ports: Vec<Port>) -> IrModule {
    IrModule {
        name: "test".into(),
        path: "test.v".into(),
        ports,
        nets: vec![],
        assigns,
        instances: vec![],
        always_blocks: vec![],
        initial_blocks: vec![],
        mem_arrays: vec![],
        resolved_parameters: vec![],
        file_id: SYNTHETIC_FILE,
    }
}

fn port(name: &str) -> Port {
    Port { direction: Some("output".into()), name: name.into(), width: 1 }
}

fn c(v: i64) -> IrExpr { IrExpr::Const(v) }
fn id(s: &str) -> IrExpr { IrExpr::Ident(s.into()) }

fn bin(op: IrBinOp, l: IrExpr, r: IrExpr) -> IrExpr {
    IrExpr::Binary { op, left: Box::new(l), right: Box::new(r) }
}

fn unary(op: IrUnaryOp, e: IrExpr) -> IrExpr {
    IrExpr::Unary { op, operand: Box::new(e) }
}

// ── Constant folding ────────────────────────────────────────────

#[test]
fn fold_add_constants() {
    let mut m = make_module(
        vec![IrAssign { lhs: "y".into(), rhs: bin(IrBinOp::Add, c(3), c(5)), span: Span::dummy() }],
        vec![port("y")],
    );
    optimize_module(&mut m);
    assert_eq!(m.assigns[0].rhs, c(8));
}

#[test]
fn fold_nested_constants() {
    let mut m = make_module(
        vec![IrAssign { lhs: "y".into(), rhs: bin(IrBinOp::Mul, bin(IrBinOp::Add, c(2), c(3)), c(4)), span: Span::dummy() }],
        vec![port("y")],
    );
    optimize_module(&mut m);
    assert_eq!(m.assigns[0].rhs, c(20));
}

#[test]
fn fold_unary_not() {
    let mut m = make_module(
        vec![IrAssign { lhs: "y".into(), rhs: unary(IrUnaryOp::Not, c(0)), span: Span::dummy() }],
        vec![port("y")],
    );
    optimize_module(&mut m);
    assert_eq!(m.assigns[0].rhs, c(-1));
}

#[test]
fn fold_double_not() {
    let mut m = make_module(
        vec![IrAssign { lhs: "y".into(), rhs: unary(IrUnaryOp::Not, unary(IrUnaryOp::Not, id("a"))), span: Span::dummy() }],
        vec![port("y")],
    );
    optimize_module(&mut m);
    assert_eq!(m.assigns[0].rhs, id("a"));
}

#[test]
fn fold_double_neg() {
    let mut m = make_module(
        vec![IrAssign { lhs: "y".into(), rhs: unary(IrUnaryOp::Neg, unary(IrUnaryOp::Neg, id("a"))), span: Span::dummy() }],
        vec![port("y")],
    );
    optimize_module(&mut m);
    assert_eq!(m.assigns[0].rhs, id("a"));
}

// ── Identity / annihilator ──────────────────────────────────────

#[test]
fn identity_add_zero() {
    let mut m = make_module(
        vec![IrAssign { lhs: "y".into(), rhs: bin(IrBinOp::Add, id("a"), c(0)), span: Span::dummy() }],
        vec![port("y")],
    );
    optimize_module(&mut m);
    assert_eq!(m.assigns[0].rhs, id("a"));
}

#[test]
fn identity_mul_one() {
    let mut m = make_module(
        vec![IrAssign { lhs: "y".into(), rhs: bin(IrBinOp::Mul, id("a"), c(1)), span: Span::dummy() }],
        vec![port("y")],
    );
    optimize_module(&mut m);
    assert_eq!(m.assigns[0].rhs, id("a"));
}

#[test]
fn annihilator_and_zero() {
    let mut m = make_module(
        vec![IrAssign { lhs: "y".into(), rhs: bin(IrBinOp::And, id("a"), c(0)), span: Span::dummy() }],
        vec![port("y")],
    );
    optimize_module(&mut m);
    assert_eq!(m.assigns[0].rhs, c(0));
}

#[test]
fn annihilator_mul_zero() {
    let mut m = make_module(
        vec![IrAssign { lhs: "y".into(), rhs: bin(IrBinOp::Mul, id("a"), c(0)), span: Span::dummy() }],
        vec![port("y")],
    );
    optimize_module(&mut m);
    assert_eq!(m.assigns[0].rhs, c(0));
}

#[test]
fn identity_or_zero() {
    let mut m = make_module(
        vec![IrAssign { lhs: "y".into(), rhs: bin(IrBinOp::Or, c(0), id("a")), span: Span::dummy() }],
        vec![port("y")],
    );
    optimize_module(&mut m);
    assert_eq!(m.assigns[0].rhs, id("a"));
}

#[test]
fn xor_self_is_zero() {
    let mut m = make_module(
        vec![IrAssign { lhs: "y".into(), rhs: bin(IrBinOp::Xor, id("a"), id("a")), span: Span::dummy() }],
        vec![port("y")],
    );
    optimize_module(&mut m);
    assert_eq!(m.assigns[0].rhs, c(0));
}

#[test]
fn sub_self_is_zero() {
    let mut m = make_module(
        vec![IrAssign { lhs: "y".into(), rhs: bin(IrBinOp::Sub, id("a"), id("a")), span: Span::dummy() }],
        vec![port("y")],
    );
    optimize_module(&mut m);
    assert_eq!(m.assigns[0].rhs, c(0));
}

#[test]
fn and_self_is_self() {
    let mut m = make_module(
        vec![IrAssign { lhs: "y".into(), rhs: bin(IrBinOp::And, id("a"), id("a")), span: Span::dummy() }],
        vec![port("y")],
    );
    optimize_module(&mut m);
    assert_eq!(m.assigns[0].rhs, id("a"));
}

#[test]
fn or_self_is_self() {
    let mut m = make_module(
        vec![IrAssign { lhs: "y".into(), rhs: bin(IrBinOp::Or, id("a"), id("a")), span: Span::dummy() }],
        vec![port("y")],
    );
    optimize_module(&mut m);
    assert_eq!(m.assigns[0].rhs, id("a"));
}

#[test]
fn div_self_is_one() {
    let mut m = make_module(
        vec![IrAssign { lhs: "y".into(), rhs: bin(IrBinOp::Div, id("a"), id("a")), span: Span::dummy() }],
        vec![port("y")],
    );
    optimize_module(&mut m);
    assert_eq!(m.assigns[0].rhs, c(1));
}

#[test]
fn mod_self_is_zero() {
    let mut m = make_module(
        vec![IrAssign { lhs: "y".into(), rhs: bin(IrBinOp::Mod, id("a"), id("a")), span: Span::dummy() }],
        vec![port("y")],
    );
    optimize_module(&mut m);
    assert_eq!(m.assigns[0].rhs, c(0));
}

// ── Comparison identities ───────────────────────────────────────

#[test]
fn eq_self_is_one() {
    let mut m = make_module(
        vec![IrAssign { lhs: "y".into(), rhs: bin(IrBinOp::Eq, id("a"), id("a")), span: Span::dummy() }],
        vec![port("y")],
    );
    optimize_module(&mut m);
    assert_eq!(m.assigns[0].rhs, c(1));
}

#[test]
fn ne_self_is_zero() {
    let mut m = make_module(
        vec![IrAssign { lhs: "y".into(), rhs: bin(IrBinOp::Ne, id("a"), id("a")), span: Span::dummy() }],
        vec![port("y")],
    );
    optimize_module(&mut m);
    assert_eq!(m.assigns[0].rhs, c(0));
}

#[test]
fn lt_self_is_zero() {
    let mut m = make_module(
        vec![IrAssign { lhs: "y".into(), rhs: bin(IrBinOp::Lt, id("a"), id("a")), span: Span::dummy() }],
        vec![port("y")],
    );
    optimize_module(&mut m);
    assert_eq!(m.assigns[0].rhs, c(0));
}

// ── Complement rules ────────────────────────────────────────────

#[test]
fn and_complement_is_zero() {
    let mut m = make_module(
        vec![IrAssign { lhs: "y".into(), rhs: bin(IrBinOp::And, id("a"), unary(IrUnaryOp::Not, id("a"))), span: Span::dummy() }],
        vec![port("y")],
    );
    optimize_module(&mut m);
    assert_eq!(m.assigns[0].rhs, c(0));
}

#[test]
fn or_complement_is_all_ones() {
    let mut m = make_module(
        vec![IrAssign { lhs: "y".into(), rhs: bin(IrBinOp::Or, id("a"), unary(IrUnaryOp::Not, id("a"))), span: Span::dummy() }],
        vec![port("y")],
    );
    optimize_module(&mut m);
    assert_eq!(m.assigns[0].rhs, c(-1));
}

// ── De Morgan ───────────────────────────────────────────────────

#[test]
fn demorgan_not_and_constants() {
    // ~(3 & 5) should fold to ~(1) = ~1 = -2 via const fold
    // But De Morgan pushes in first: (~3 | ~5) → (-4 | -6) → (-4 | -6) = -2
    let mut m = make_module(
        vec![IrAssign { lhs: "y".into(), rhs: unary(IrUnaryOp::Not, bin(IrBinOp::And, c(3), c(5))), span: Span::dummy() }],
        vec![port("y")],
    );
    optimize_module(&mut m);
    assert_eq!(m.assigns[0].rhs, c(!1i64)); // 3 & 5 = 1, ~1 = -2
}

// ── Absorption ──────────────────────────────────────────────────

#[test]
fn absorption_and_or() {
    // a & (a | b) → a
    let mut m = make_module(
        vec![IrAssign { lhs: "y".into(), rhs: bin(IrBinOp::And, id("a"), bin(IrBinOp::Or, id("a"), id("b"))), span: Span::dummy() }],
        vec![port("y")],
    );
    optimize_module(&mut m);
    assert_eq!(m.assigns[0].rhs, id("a"));
}

#[test]
fn absorption_or_and() {
    // a | (a & b) → a
    let mut m = make_module(
        vec![IrAssign { lhs: "y".into(), rhs: bin(IrBinOp::Or, id("a"), bin(IrBinOp::And, id("a"), id("b"))), span: Span::dummy() }],
        vec![port("y")],
    );
    optimize_module(&mut m);
    assert_eq!(m.assigns[0].rhs, id("a"));
}

// ── Strength reduction ──────────────────────────────────────────

#[test]
fn strength_mul_power_of_2() {
    let mut m = make_module(
        vec![IrAssign { lhs: "y".into(), rhs: bin(IrBinOp::Mul, id("a"), c(8)), span: Span::dummy() }],
        vec![port("y")],
    );
    optimize_module(&mut m);
    assert_eq!(m.assigns[0].rhs, bin(IrBinOp::Shl, id("a"), c(3)));
}

#[test]
fn strength_div_power_of_2() {
    let mut m = make_module(
        vec![IrAssign { lhs: "y".into(), rhs: bin(IrBinOp::Div, id("a"), c(4)), span: Span::dummy() }],
        vec![port("y")],
    );
    optimize_module(&mut m);
    assert_eq!(m.assigns[0].rhs, bin(IrBinOp::Shr, id("a"), c(2)));
}

#[test]
fn strength_mod_power_of_2() {
    let mut m = make_module(
        vec![IrAssign { lhs: "y".into(), rhs: bin(IrBinOp::Mod, id("a"), c(16)), span: Span::dummy() }],
        vec![port("y")],
    );
    optimize_module(&mut m);
    assert_eq!(m.assigns[0].rhs, bin(IrBinOp::And, id("a"), c(15)));
}

// ── Constant propagation ────────────────────────────────────────

#[test]
fn const_prop_simple() {
    let mut m = make_module(
        vec![
            IrAssign { lhs: "tmp".into(), rhs: c(42), span: Span::dummy() },
            IrAssign { lhs: "y".into(), rhs: bin(IrBinOp::Add, id("tmp"), c(1)), span: Span::dummy() },
        ],
        vec![port("y")],
    );
    optimize_module(&mut m);
    let y = m.assigns.iter().find(|a| a.lhs == "y").unwrap();
    assert_eq!(y.rhs, c(43));
}

// ── Copy propagation ────────────────────────────────────────────

#[test]
fn copy_prop_expr() {
    // t = a + 1, y = t + 2  →  y = a + 1 + 2  →  y = a + 3 (after fold)
    let mut m = make_module(
        vec![
            IrAssign { lhs: "t".into(), rhs: bin(IrBinOp::Add, id("a"), c(1)), span: Span::dummy() },
            IrAssign { lhs: "y".into(), rhs: bin(IrBinOp::Add, id("t"), c(2)), span: Span::dummy() },
        ],
        vec![port("y")],
    );
    optimize_module(&mut m);
    let y = m.assigns.iter().find(|a| a.lhs == "y").unwrap();
    // After copy prop and fold, we expect y = a + 3
    assert_eq!(y.rhs, bin(IrBinOp::Add, id("a"), c(3)));
}

#[test]
fn alias_simple() {
    let mut m = make_module(
        vec![
            IrAssign { lhs: "b".into(), rhs: id("a"), span: Span::dummy() },
            IrAssign { lhs: "y".into(), rhs: bin(IrBinOp::Add, id("b"), c(1)), span: Span::dummy() },
        ],
        vec![port("y")],
    );
    optimize_module(&mut m);
    let y = m.assigns.iter().find(|a| a.lhs == "y").unwrap();
    assert_eq!(y.rhs, bin(IrBinOp::Add, id("a"), c(1)));
}

#[test]
fn alias_chain() {
    let mut m = make_module(
        vec![
            IrAssign { lhs: "c_wire".into(), rhs: id("b_wire"), span: Span::dummy() },
            IrAssign { lhs: "b_wire".into(), rhs: id("a"), span: Span::dummy() },
            IrAssign { lhs: "y".into(), rhs: bin(IrBinOp::Add, id("c_wire"), c(1)), span: Span::dummy() },
        ],
        vec![port("y")],
    );
    optimize_module(&mut m);
    let y = m.assigns.iter().find(|a| a.lhs == "y").unwrap();
    assert_eq!(y.rhs, bin(IrBinOp::Add, id("a"), c(1)));
}

// ── CSE ─────────────────────────────────────────────────────────

#[test]
fn cse_dedup() {
    // t1 = a + b, t2 = a + b, y = t1 & t2
    // After CSE: t2 rewritten to use t1 → y = t1 & t1 → y = t1
    let mut m = make_module(
        vec![
            IrAssign { lhs: "t1".into(), rhs: bin(IrBinOp::Add, id("a"), id("b")), span: Span::dummy() },
            IrAssign { lhs: "t2".into(), rhs: bin(IrBinOp::Add, id("a"), id("b")), span: Span::dummy() },
            IrAssign { lhs: "y".into(), rhs: bin(IrBinOp::And, id("t1"), id("t2")), span: Span::dummy() },
        ],
        vec![port("y")],
    );
    optimize_module(&mut m);
    // After CSE + identity (x & x = x) + dead elim:
    let y = m.assigns.iter().find(|a| a.lhs == "y").unwrap();
    assert_eq!(y.rhs, bin(IrBinOp::Add, id("a"), id("b")));
}

// ── Dead signal elimination ─────────────────────────────────────

#[test]
fn dead_signal_removed() {
    let mut m = make_module(
        vec![
            IrAssign { lhs: "dead".into(), rhs: c(99), span: Span::dummy() },
            IrAssign { lhs: "y".into(), rhs: id("a"), span: Span::dummy() },
        ],
        vec![port("y")],
    );
    optimize_module(&mut m);
    assert_eq!(m.assigns.len(), 1);
    assert_eq!(m.assigns[0].lhs, "y");
}

#[test]
fn port_signal_not_removed() {
    let mut m = make_module(
        vec![IrAssign { lhs: "y".into(), rhs: c(5), span: Span::dummy() }],
        vec![port("y")],
    );
    optimize_module(&mut m);
    assert_eq!(m.assigns.len(), 1);
}

// ── Ternary ─────────────────────────────────────────────────────

#[test]
fn ternary_true_folds() {
    let mut m = make_module(
        vec![IrAssign {
            lhs: "y".into(),
            rhs: IrExpr::Ternary {
                cond: Box::new(c(1)),
                then_expr: Box::new(id("a")),
                else_expr: Box::new(id("b")),
            }, span: Span::dummy() }],
        vec![port("y")],
    );
    optimize_module(&mut m);
    assert_eq!(m.assigns[0].rhs, id("a"));
}

#[test]
fn ternary_false_folds() {
    let mut m = make_module(
        vec![IrAssign {
            lhs: "y".into(),
            rhs: IrExpr::Ternary {
                cond: Box::new(c(0)),
                then_expr: Box::new(id("a")),
                else_expr: Box::new(id("b")),
            }, span: Span::dummy() }],
        vec![port("y")],
    );
    optimize_module(&mut m);
    assert_eq!(m.assigns[0].rhs, id("b"));
}

#[test]
fn ternary_same_arms() {
    let mut m = make_module(
        vec![IrAssign {
            lhs: "y".into(),
            rhs: IrExpr::Ternary {
                cond: Box::new(id("sel")),
                then_expr: Box::new(id("a")),
                else_expr: Box::new(id("a")),
            }, span: Span::dummy() }],
        vec![port("y")],
    );
    optimize_module(&mut m);
    assert_eq!(m.assigns[0].rhs, id("a"));
}

// ── Combined ────────────────────────────────────────────────────

#[test]
fn combined_optimization() {
    let mut m = make_module(
        vec![
            IrAssign { lhs: "tmp".into(), rhs: c(2), span: Span::dummy() },
            IrAssign { lhs: "y".into(), rhs: bin(IrBinOp::Mul, id("tmp"), c(4)), span: Span::dummy() },
        ],
        vec![port("y")],
    );
    optimize_module(&mut m);
    let y = m.assigns.iter().find(|a| a.lhs == "y").unwrap();
    assert_eq!(y.rhs, c(8));
}

#[test]
fn shl_zero_identity() {
    let mut m = make_module(
        vec![IrAssign { lhs: "y".into(), rhs: bin(IrBinOp::Shl, id("a"), c(0)), span: Span::dummy() }],
        vec![port("y")],
    );
    optimize_module(&mut m);
    assert_eq!(m.assigns[0].rhs, id("a"));
}

#[test]
fn fold_eq_true() {
    let mut m = make_module(
        vec![IrAssign { lhs: "y".into(), rhs: bin(IrBinOp::Eq, c(7), c(7)), span: Span::dummy() }],
        vec![port("y")],
    );
    optimize_module(&mut m);
    assert_eq!(m.assigns[0].rhs, c(1));
}

#[test]
fn fold_lt_false() {
    let mut m = make_module(
        vec![IrAssign { lhs: "y".into(), rhs: bin(IrBinOp::Lt, c(10), c(3)), span: Span::dummy() }],
        vec![port("y")],
    );
    optimize_module(&mut m);
    assert_eq!(m.assigns[0].rhs, c(0));
}

// ── Logical short-circuit ───────────────────────────────────────

#[test]
fn logand_zero_short_circuits() {
    let mut m = make_module(
        vec![IrAssign { lhs: "y".into(), rhs: bin(IrBinOp::LogAnd, c(0), id("a")), span: Span::dummy() }],
        vec![port("y")],
    );
    optimize_module(&mut m);
    assert_eq!(m.assigns[0].rhs, c(0));
}

#[test]
fn logor_nonzero_short_circuits() {
    let mut m = make_module(
        vec![IrAssign { lhs: "y".into(), rhs: bin(IrBinOp::LogOr, c(5), id("a")), span: Span::dummy() }],
        vec![port("y")],
    );
    optimize_module(&mut m);
    assert_eq!(m.assigns[0].rhs, c(1));
}

// ── Canonicalization enables CSE ─────────────────────────────────

#[test]
fn canonical_enables_cse() {
    // t1 = a & b,  t2 = b & a  → after canonical both are a & b → CSE
    let mut m = make_module(
        vec![
            IrAssign { lhs: "t1".into(), rhs: bin(IrBinOp::And, id("a"), id("b")), span: Span::dummy() },
            IrAssign { lhs: "t2".into(), rhs: bin(IrBinOp::And, id("b"), id("a")), span: Span::dummy() },
            IrAssign { lhs: "y".into(), rhs: bin(IrBinOp::Or, id("t1"), id("t2")), span: Span::dummy() },
        ],
        vec![port("y")],
    );
    optimize_module(&mut m);
    let y = m.assigns.iter().find(|a| a.lhs == "y").unwrap();
    // t1 == t2 after CSE, so t1 | t1 = t1 = a & b
    assert_eq!(y.rhs, bin(IrBinOp::And, id("a"), id("b")));
}

// ── Peephole / instruction combining ────────────────

#[test]
fn peephole_add_self_to_shl1() {
    // a + a → a << 1
    let mut m = make_module(
        vec![IrAssign { lhs: "y".into(), rhs: bin(IrBinOp::Add, id("a"), id("a")), span: Span::dummy() }],
        vec![port("y")],
    );
    optimize_module(&mut m);
    assert_eq!(m.assigns[0].rhs, bin(IrBinOp::Shl, id("a"), c(1)));
}

#[test]
fn peephole_neg_a_plus_b() {
    // (-a) + b → b - a
    let mut m = make_module(
        vec![IrAssign {
            lhs: "y".into(),
            rhs: bin(
                IrBinOp::Add,
                IrExpr::Unary { op: IrUnaryOp::Neg, operand: Box::new(id("a")) },
                id("b"),
            ), span: Span::dummy() }],
        vec![port("y")],
    );
    optimize_module(&mut m);
    assert_eq!(m.assigns[0].rhs, bin(IrBinOp::Sub, id("b"), id("a")));
}

#[test]
fn peephole_a_plus_neg_b() {
    // a + (-b) → a - b
    let mut m = make_module(
        vec![IrAssign {
            lhs: "y".into(),
            rhs: bin(
                IrBinOp::Add,
                id("a"),
                IrExpr::Unary { op: IrUnaryOp::Neg, operand: Box::new(id("b")) },
            ), span: Span::dummy() }],
        vec![port("y")],
    );
    optimize_module(&mut m);
    assert_eq!(m.assigns[0].rhs, bin(IrBinOp::Sub, id("a"), id("b")));
}

#[test]
fn peephole_sub_neg() {
    // a - (-b) → a + b
    let mut m = make_module(
        vec![IrAssign {
            lhs: "y".into(),
            rhs: bin(
                IrBinOp::Sub,
                id("a"),
                IrExpr::Unary { op: IrUnaryOp::Neg, operand: Box::new(id("b")) },
            ), span: Span::dummy() }],
        vec![port("y")],
    );
    optimize_module(&mut m);
    assert_eq!(m.assigns[0].rhs, bin(IrBinOp::Add, id("a"), id("b")));
}

#[test]
fn peephole_shl_shr_mask() {
    // (a << 3) >> 3 → a & mask
    let mut m = make_module(
        vec![IrAssign {
            lhs: "y".into(),
            rhs: bin(
                IrBinOp::Shr,
                bin(IrBinOp::Shl, id("a"), c(3)),
                c(3),
            ), span: Span::dummy() }],
        vec![port("y")],
    );
    optimize_module(&mut m);
    let mask = (1i64 << 61) - 1;
    assert_eq!(m.assigns[0].rhs, bin(IrBinOp::And, id("a"), c(mask)));
}

#[test]
fn peephole_ternary_distribution() {
    // (sel ? 3 : 5) + 2 → sel ? 5 : 7  (after fold)
    let mut m = make_module(
        vec![IrAssign {
            lhs: "y".into(),
            rhs: bin(
                IrBinOp::Add,
                IrExpr::Ternary {
                    cond: Box::new(id("sel")),
                    then_expr: Box::new(c(3)),
                    else_expr: Box::new(c(5)),
                },
                c(2),
            ), span: Span::dummy() }],
        vec![port("y")],
    );
    optimize_module(&mut m);
    // After peephole distributes and then fold kicks in:
    // sel ? (3+2) : (5+2) = sel ? 5 : 7
    assert_eq!(
        m.assigns[0].rhs,
        IrExpr::Ternary {
            cond: Box::new(id("sel")),
            then_expr: Box::new(c(5)),
            else_expr: Box::new(c(7)),
        }
    );
}

// ── Code sinking ────────────────────────────────────

#[test]
fn sink_nested_ternary_same_cond_then() {
    // c ? (c ? a : b) : e → c ? a : e
    let mut m = make_module(
        vec![IrAssign {
            lhs: "y".into(),
            rhs: IrExpr::Ternary {
                cond: Box::new(id("c")),
                then_expr: Box::new(IrExpr::Ternary {
                    cond: Box::new(id("c")),
                    then_expr: Box::new(id("a")),
                    else_expr: Box::new(id("b")),
                }),
                else_expr: Box::new(id("e")),
            }, span: Span::dummy() }],
        vec![port("y")],
    );
    optimize_module(&mut m);
    assert_eq!(
        m.assigns[0].rhs,
        IrExpr::Ternary {
            cond: Box::new(id("c")),
            then_expr: Box::new(id("a")),
            else_expr: Box::new(id("e")),
        }
    );
}

#[test]
fn sink_nested_ternary_same_cond_else() {
    // c ? a : (c ? b : e) → c ? a : e
    let mut m = make_module(
        vec![IrAssign {
            lhs: "y".into(),
            rhs: IrExpr::Ternary {
                cond: Box::new(id("c")),
                then_expr: Box::new(id("a")),
                else_expr: Box::new(IrExpr::Ternary {
                    cond: Box::new(id("c")),
                    then_expr: Box::new(id("b")),
                    else_expr: Box::new(id("e")),
                }),
            }, span: Span::dummy() }],
        vec![port("y")],
    );
    optimize_module(&mut m);
    assert_eq!(
        m.assigns[0].rhs,
        IrExpr::Ternary {
            cond: Box::new(id("c")),
            then_expr: Box::new(id("a")),
            else_expr: Box::new(id("e")),
        }
    );
}

#[test]
fn sink_factor_common_right_operand() {
    // c ? (a + x) : (b + x) → (c ? a : b) + x
    // After canonicalization, idents sort before compound exprs, so result
    // may be x + (sel ? a : b).
    let mut m = make_module(
        vec![IrAssign {
            lhs: "y".into(),
            rhs: IrExpr::Ternary {
                cond: Box::new(id("sel")),
                then_expr: Box::new(bin(IrBinOp::Add, id("a"), id("x"))),
                else_expr: Box::new(bin(IrBinOp::Add, id("b"), id("x"))),
            }, span: Span::dummy() }],
        vec![port("y")],
    );
    optimize_module(&mut m);
    // Sinking factors out x, and canonicalization may reorder.
    // Check that the result is Add with x and a ternary.
    match &m.assigns[0].rhs {
        IrExpr::Binary { op: IrBinOp::Add, left, right } => {
            let has_x = matches!(left.as_ref(), IrExpr::Ident(n) if n == "x")
                || matches!(right.as_ref(), IrExpr::Ident(n) if n == "x");
            let has_ternary = matches!(left.as_ref(), IrExpr::Ternary { .. })
                || matches!(right.as_ref(), IrExpr::Ternary { .. });
            assert!(has_x && has_ternary, "expected Add(x, ternary) in some order, got {:?}", m.assigns[0].rhs);
        }
        other => panic!("expected Binary Add, got {:?}", other),
    }
}

#[test]
fn sink_factor_common_left_operand() {
    // c ? (x & a) : (x & b) → x & (c ? a : b)
    let mut m = make_module(
        vec![IrAssign {
            lhs: "y".into(),
            rhs: IrExpr::Ternary {
                cond: Box::new(id("sel")),
                then_expr: Box::new(bin(IrBinOp::And, id("x"), id("a"))),
                else_expr: Box::new(bin(IrBinOp::And, id("x"), id("b"))),
            }, span: Span::dummy() }],
        vec![port("y")],
    );
    optimize_module(&mut m);
    assert_eq!(
        m.assigns[0].rhs,
        bin(
            IrBinOp::And,
            id("x"),
            IrExpr::Ternary {
                cond: Box::new(id("sel")),
                then_expr: Box::new(id("a")),
                else_expr: Box::new(id("b")),
            },
        )
    );
}

// ── Module inlining ────────────────────

#[test]
fn module_inlining_inlines_small_child() {
    let child = IrModule {
        name: "inverter".into(),
        path: "test.v".into(),
        ports: vec![port("a"), port("y")],
        nets: vec![IrNet { name: "t".into(), width: 1 }],
        assigns: vec![
            IrAssign { lhs: "t".into(), rhs: IrExpr::Unary { op: IrUnaryOp::Not, operand: Box::new(id("a")) }, span: Span::dummy() },
            IrAssign { lhs: "y".into(), rhs: id("t"), span: Span::dummy() },
        ],
        instances: vec![],
        always_blocks: vec![],
        initial_blocks: vec![],
        mem_arrays: vec![],
        resolved_parameters: vec![],
        file_id: SYNTHETIC_FILE,
    };
    let parent = IrModule {
        name: "top".into(),
        path: "test.v".into(),
        ports: vec![port("x"), port("z")],
        nets: vec![],
        assigns: vec![],
        instances: vec![IrInstance {
            module_name: "inverter".into(),
            parameter_assignments: vec![],
            instance_name: "u0".into(),
            connections: vec![
                IrPortConn {
                    port_name: Some("a".into()),
                    expr: id("x"),
                    span: Span::dummy(),
                },
                IrPortConn {
                    port_name: Some("y".into()),
                    expr: id("z"),
                    span: Span::dummy(),
                },
            ],
        }],
        always_blocks: vec![],
        initial_blocks: vec![],
        mem_arrays: vec![],
        resolved_parameters: vec![],
        file_id: SYNTHETIC_FILE,
    };
    let mut proj = IrProject {
        modules: vec![child, parent],
        diagnostics: vec![],
        source_map: SourceMap::new(),
    };
    let metrics = optimize_project(&mut proj, true);
    assert_eq!(metrics.modules_inlined, 1);
    let top = proj.modules.iter().find(|m| m.name == "top").unwrap();
    assert!(top.instances.is_empty(), "instance should be removed");
    // With port mapping: y is mapped to z, so assign z = ...
    assert!(top.assigns.iter().any(|a| a.lhs == "z"), "output port should be wired");
}

/// `c[i+1]` after generate lowering uses `IrExpr::Binary` indices; inlining must still RMW
/// into the parent packed net (same requirement as codegen flatten).
#[test]
fn module_inline_merges_output_into_packed_vec_when_partselect_msb_is_binary_add() {
    let child = IrModule {
        name: "BitDrv".into(),
        path: "b.v".into(),
        ports: vec![
            Port {
                direction: Some("input".into()),
                name: "a".into(),
                width: 1,
            },
            Port {
                direction: Some("output".into()),
                name: "cout".into(),
                width: 1,
            },
        ],
        nets: vec![],
        assigns: vec![IrAssign {
            lhs: "cout".into(),
            rhs: id("a"), span: Span::dummy() }],
        instances: vec![],
        always_blocks: vec![],
        initial_blocks: vec![],
        mem_arrays: vec![],
        resolved_parameters: vec![],
        file_id: SYNTHETIC_FILE,
    };
    let parent = IrModule {
        name: "Top".into(),
        path: "t.v".into(),
        ports: vec![],
        nets: vec![IrNet {
            name: "carry".into(),
            width: 5,
        }],
        assigns: vec![],
        instances: vec![IrInstance {
            module_name: "BitDrv".into(),
            instance_name: "u0".into(),
            parameter_assignments: vec![],
            connections: vec![
                IrPortConn {
                    port_name: Some("a".into()),
                    expr: IrExpr::Const(1),
                    span: Span::dummy(),
                },
                IrPortConn {
                    port_name: Some("cout".into()),
                    expr: IrExpr::PartSelect {
                        value: Box::new(IrExpr::Ident("carry".into())),
                        msb: Box::new(bin(IrBinOp::Add, c(0), c(1))),
                        lsb: Box::new(bin(IrBinOp::Add, c(0), c(1))),
                    },
                    span: Span::dummy(),
                },
            ],
        }],
        always_blocks: vec![],
        initial_blocks: vec![],
        mem_arrays: vec![],
        resolved_parameters: vec![],
        file_id: SYNTHETIC_FILE,
    };
    let mut proj = IrProject {
        modules: vec![child, parent],
        diagnostics: vec![],
        source_map: SourceMap::new(),
    };
    let _ = optimize_project(&mut proj, true);
    let top = proj.modules.iter().find(|m| m.name == "Top").unwrap();
    assert!(top.instances.is_empty(), "instance should inline away");
    assert!(
        !top.assigns.iter().any(|a| a.lhs == "u0__cout"),
        "inlined 1-bit output must map into `carry`, not stay as prefixed net (assigns={:?})",
        top.assigns
    );
    assert!(
        top.assigns.iter().any(|a| a.lhs == "carry"),
        "expected driver onto parent packed net `carry`, assigns={:?}",
        top.assigns
    );
}

#[test]
fn module_inlining_skips_large_modules() {
    let big_assigns: Vec<IrAssign> = (0..20)
        .map(|i| IrAssign { lhs: format!("w{}", i), rhs: c(i), span: Span::dummy() })
        .collect();
    let child = IrModule {
        name: "big".into(),
        path: "test.v".into(),
        ports: vec![],
        nets: vec![],
        assigns: big_assigns,
        instances: vec![],
        always_blocks: vec![],
        initial_blocks: vec![],
        mem_arrays: vec![],
        resolved_parameters: vec![],
        file_id: SYNTHETIC_FILE,
    };
    let parent = IrModule {
        name: "top".into(),
        path: "test.v".into(),
        ports: vec![],
        nets: vec![],
        assigns: vec![],
        instances: vec![IrInstance {
            module_name: "big".into(),
            parameter_assignments: vec![],
            instance_name: "u0".into(),
            connections: vec![],
        }],
        always_blocks: vec![],
        initial_blocks: vec![],
        mem_arrays: vec![],
        resolved_parameters: vec![],
        file_id: SYNTHETIC_FILE,
    };
    let mut proj = IrProject {
        modules: vec![child, parent],
        diagnostics: vec![],
        source_map: SourceMap::new(),
    };
    let metrics = optimize_project(&mut proj, true);
    assert_eq!(metrics.modules_inlined, 0);
    let top = proj.modules.iter().find(|m| m.name == "top").unwrap();
    assert_eq!(top.instances.len(), 1, "large module should not be inlined");
}

#[test]
fn module_inlining_skips_hierarchical_children() {
    let child = IrModule {
        name: "has_sub".into(),
        path: "test.v".into(),
        ports: vec![],
        nets: vec![],
        assigns: vec![IrAssign { lhs: "w".into(), rhs: c(1), span: Span::dummy() }],
        instances: vec![IrInstance {
            module_name: "deep".into(),
            parameter_assignments: vec![],
            instance_name: "sub".into(),
            connections: vec![],
        }],
        always_blocks: vec![],
        initial_blocks: vec![],
        mem_arrays: vec![],
        resolved_parameters: vec![],
        file_id: SYNTHETIC_FILE,
    };
    let parent = IrModule {
        name: "top".into(),
        path: "test.v".into(),
        ports: vec![],
        nets: vec![],
        assigns: vec![],
        instances: vec![IrInstance {
            module_name: "has_sub".into(),
            parameter_assignments: vec![],
            instance_name: "u0".into(),
            connections: vec![],
        }],
        always_blocks: vec![],
        initial_blocks: vec![],
        mem_arrays: vec![],
        resolved_parameters: vec![],
        file_id: SYNTHETIC_FILE,
    };
    let mut proj = IrProject {
        modules: vec![child, parent],
        diagnostics: vec![],
        source_map: SourceMap::new(),
    };
    let metrics = optimize_project(&mut proj, true);
    assert_eq!(metrics.modules_inlined, 0);
}

#[test]
fn module_inlining_skips_child_with_initial_blocks() {
    let child = IrModule {
        name: "with_init".into(),
        path: "test.v".into(),
        ports: vec![port("y")],
        nets: vec![IrNet { name: "t".into(), width: 1 }],
        assigns: vec![IrAssign {
            lhs: "y".into(),
            rhs: id("t"), span: Span::dummy() }],
        instances: vec![],
        always_blocks: vec![],
        initial_blocks: vec![IrInitial {
            stmts: StmtBlock::from_stmts(vec![IrStmt::BlockingAssign {
                lhs: "t".into(),
                rhs: c(1),
            }]),
        }],
        mem_arrays: vec![],
        resolved_parameters: vec![],
        file_id: SYNTHETIC_FILE,
    };
    let parent = IrModule {
        name: "top".into(),
        path: "test.v".into(),
        ports: vec![port("z")],
        nets: vec![],
        assigns: vec![],
        instances: vec![IrInstance {
            module_name: "with_init".into(),
            parameter_assignments: vec![],
            instance_name: "u0".into(),
            connections: vec![IrPortConn {
                port_name: Some("y".into()),
                expr: id("z"),
                span: Span::dummy(),
            }],
        }],
        always_blocks: vec![],
        initial_blocks: vec![],
        mem_arrays: vec![],
        resolved_parameters: vec![],
        file_id: SYNTHETIC_FILE,
    };
    let mut proj = IrProject {
        modules: vec![child, parent],
        diagnostics: vec![],
        source_map: SourceMap::new(),
    };
    let metrics = optimize_project(&mut proj, true);
    assert_eq!(metrics.modules_inlined, 0, "must not inline away initial_blocks");
    let top = proj.modules.iter().find(|m| m.name == "top").unwrap();
    assert_eq!(top.instances.len(), 1);
}

// ── Loop unrolling ─────────────────────────────────────────────

#[test]
fn loop_unrolling_simple_for() {
    // for (i = 0; i < 3; i = i + 1) out = i;
    // → out = 0; out = 1; out = 2;
    let mut stmts = StmtBlock::from_stmts(vec![IrStmt::For {
        init_var: "i".into(),
        init_val: c(0),
        cond: bin(IrBinOp::Lt, id("i"), c(3)),
        step_var: "i".into(),
        step_expr: bin(IrBinOp::Add, id("i"), c(1)),
        body: StmtBlock::from_stmts(vec![IrStmt::BlockingAssign {
            lhs: "out".into(),
            rhs: id("i"),
        }]),
    }]);
    let count = unroll_loops(&mut stmts);
    assert_eq!(count, 1);
    assert_eq!(stmts.len(), 3);
    // Each unrolled iteration replaces i with the constant
    if let IrStmt::BlockingAssign { rhs, .. } = stmts.stmt(0) {
        assert_eq!(*rhs, c(0));
    }
    if let IrStmt::BlockingAssign { rhs, .. } = stmts.stmt(2) {
        assert_eq!(*rhs, c(2));
    }
}

#[test]
fn loop_unrolling_skips_unknown_bounds() {
    let mut stmts = StmtBlock::from_stmts(vec![IrStmt::For {
        init_var: "i".into(),
        init_val: c(0),
        cond: bin(IrBinOp::Lt, id("i"), id("n")), // n is not a constant
        step_var: "i".into(),
        step_expr: bin(IrBinOp::Add, id("i"), c(1)),
        body: StmtBlock::from_stmts(vec![IrStmt::BlockingAssign {
            lhs: "out".into(),
            rhs: id("i"),
        }]),
    }]);
    let count = unroll_loops(&mut stmts);
    assert_eq!(count, 0);
    assert_eq!(stmts.len(), 1); // For loop remains
}

fn counting(var: &str, from: i64, below: i64, body: Vec<IrStmt>) -> IrStmt {
    IrStmt::For {
        init_var: var.into(),
        init_val: c(from),
        cond: bin(IrBinOp::Lt, id(var), c(below)),
        step_var: var.into(),
        step_expr: bin(IrBinOp::Add, id(var), c(1)),
        body: StmtBlock::from_stmts(body),
    }
}

#[test]
fn task_arguments_see_the_value_of_the_turn() {
    let show = IrStmt::SystemTask { name: "$display".into(), args: vec![id("i"), id("k")] };
    let mut stmts = StmtBlock::from_stmts(vec![counting("i", 4, 6, vec![show])]);
    assert_eq!(unroll_loops(&mut stmts), 1);
    assert_eq!(stmts.len(), 2);
    for turn in 0..2 {
        match stmts.stmt(turn) {
            IrStmt::SystemTask { name, args } => {
                assert_eq!(name, "$display");
                assert_eq!(args, &vec![c(4 + turn as i64), id("k")]);
            }
            other => panic!("unexpected {:?}", other),
        }
    }
}

#[test]
fn an_inner_loop_sees_the_value_of_the_outer_turn() {
    let inner = IrStmt::For {
        init_var: "j".into(),
        init_val: id("i"),
        cond: bin(IrBinOp::Lt, id("j"), bin(IrBinOp::Add, id("i"), id("n"))),
        step_var: "j".into(),
        step_expr: bin(IrBinOp::Add, id("j"), id("i")),
        body: StmtBlock::from_stmts(vec![IrStmt::BlockingAssign {
            lhs: "out".into(),
            rhs: id("i"),
        }]),
    };
    let mut stmts = StmtBlock::from_stmts(vec![counting("i", 1, 3, vec![inner])]);
    assert_eq!(unroll_loops(&mut stmts), 1);
    assert_eq!(stmts.len(), 2);
    match stmts.stmt(1) {
        IrStmt::For { init_val, cond, step_expr, body, .. } => {
            assert_eq!(*init_val, c(2));
            assert_eq!(*cond, bin(IrBinOp::Lt, id("j"), bin(IrBinOp::Add, c(2), id("n"))));
            assert_eq!(*step_expr, bin(IrBinOp::Add, id("j"), c(2)));
            match body.stmt(0) {
                IrStmt::BlockingAssign { rhs, .. } => assert_eq!(*rhs, c(2)),
                other => panic!("unexpected {:?}", other),
            }
        }
        other => panic!("unexpected {:?}", other),
    }
}

#[test]
fn a_loop_that_never_runs_is_kept() {
    let set = IrStmt::BlockingAssign { lhs: "out".into(), rhs: id("i") };
    let mut stmts = StmtBlock::from_stmts(vec![counting("i", 5, 2, vec![set])]);
    assert_eq!(unroll_loops(&mut stmts), 0);
    assert_eq!(stmts.len(), 1);
    assert!(matches!(stmts.stmt(0), IrStmt::For { .. }));
}

#[test]
fn a_name_is_two_state_only_if_every_assign_is() {
    let assign = |lhs: &str, rhs: IrExpr| IrAssign { lhs: lhs.into(), rhs, span: Span::dummy() };
    let map = infer_value_domains(&vec![assign("a", c(1)), assign("b", c(0)), assign("b", id("x"))]);
    assert_eq!(map.get("a"), Some(ValueDomain::TwoState));
    assert_ne!(map.get("b"), Some(ValueDomain::TwoState));
    let map = infer_value_domains(&vec![assign("b", id("x")), assign("b", c(0)), assign("d", id("b"))]);
    assert_ne!(map.get("b"), Some(ValueDomain::TwoState));
    assert_ne!(map.get("d"), Some(ValueDomain::TwoState));
}

// ── Adaptive scoring ───────────────────────────────────────────

#[test]
fn score_history_tracks_size() {
    let mut m = make_module(
        vec![
            IrAssign { lhs: "t".into(), rhs: bin(IrBinOp::Add, c(1), c(2)), span: Span::dummy() },
            IrAssign { lhs: "y".into(), rhs: id("t"), span: Span::dummy() },
        ],
        vec![port("y")],
    );
    let metrics = optimize_module_with_metrics(&mut m);
    assert!(!metrics.score_history.is_empty());
    // After optimization, the final score should be <= the initial
    let first = metrics.score_history[0];
    let last = *metrics.score_history.last().unwrap();
    assert!(last <= first, "score should not increase");
}

// ── Metrics ────────────────────────────────────────────────────

#[test]
fn metrics_tracks_pass_counts() {
    let mut m = make_module(
        vec![
            IrAssign { lhs: "t".into(), rhs: bin(IrBinOp::Add, c(1), c(2)), span: Span::dummy() },
            IrAssign { lhs: "y".into(), rhs: id("t"), span: Span::dummy() },
        ],
        vec![port("y")],
    );
    let metrics = optimize_module_with_metrics(&mut m);
    assert!(metrics.algebraic_rewrites > 0, "should have folded constants");
    assert!(metrics.total_passes >= 1);
}
