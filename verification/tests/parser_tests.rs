//! Parsing.
use verilog_core::lexer::lex;
use verilog_core::parser::cst::{
    AssignTarget, BinaryOp, CaseKind, CstBlock, CstFile, CstModuleItem, CstStmt, EdgeKind, Expr,
    Sensitivity,
};
use verilog_core::parser::module::parse_cst;
use verilog_core::parser::subst::{subst_expr_loop_var, subst_module_item_loop_var};
use verilog_core::{parse_file, Diagnostic, Severity, SourceFile};

#[test]
fn parses_module_name_and_ports_with_directions_and_ranges() {
    let src = r#"
module foo #(parameter WIDTH = 16) (
    input [WIDTH-1:0] data_in,
    output logic ready,
    inout [3:0] bus
);
endmodule
"#;

    let res = parse_file("foo.v", src);
    assert!(
        res.diagnostics.is_empty(),
        "unexpected diagnostics: {:?}",
        res.diagnostics
    );

    assert_eq!(res.modules.len(), 1);
    let m = &res.modules[0];
    assert_eq!(m.name, "foo");
    assert_eq!(m.ports.len(), 3);

    assert_eq!(m.ports[0].direction.as_deref(), Some("input"));
    assert_eq!(m.ports[0].name, "data_in");
    assert_eq!(m.ports[0].width, 16, "parametric [WIDTH-1:0] must evaluate to 16 bits");

    assert_eq!(m.ports[1].direction.as_deref(), Some("output"));
    assert_eq!(m.ports[1].name, "ready");

    assert_eq!(m.ports[2].direction.as_deref(), Some("inout"));
    assert_eq!(m.ports[2].name, "bus");
}

#[test]
fn ansi_port_list_repeats_direction_for_comma_separated_names() {
    let src = r#"
module m(
    output [6:0] TimerMSD, TimerLSD,
    output reg [6:0] ETL, NLTL, ELTL, WTL
);
endmodule
"#;
    let res = parse_file("m.v", src);
    assert!(res.diagnostics.is_empty(), "{:?}", res.diagnostics);
    let m = &res.modules[0];
    assert_eq!(m.ports.len(), 6);
    for p in &m.ports {
        assert_eq!(
            p.direction.as_deref(),
            Some("output"),
            "port {} missing inherited output direction",
            p.name
        );
    }
    assert_eq!(m.ports[0].name, "TimerMSD");
    assert_eq!(m.ports[1].name, "TimerLSD");
    assert_eq!(m.ports[2].name, "ETL");
    assert_eq!(m.ports[5].name, "WTL");
    for p in &m.ports {
        assert_eq!(
            p.width, 7,
            "comma-separated ports must inherit [6:0] width for {}",
            p.name
        );
    }
}

fn cst(src: &str) -> (CstFile, Vec<Diagnostic>) {
    let f = SourceFile::new("t.v", src);
    let t = lex(&f);
    parse_cst(&f, &t)
}

fn items(src: &str) -> Vec<CstModuleItem> {
    let (file, diags) = cst(src);
    assert!(diags.is_empty(), "{:?}", diags);
    file.modules.into_iter().next().expect("a module").items
}

fn always_body(src: &str) -> CstBlock {
    for item in items(src) {
        if let CstModuleItem::Always { body, .. } = item {
            return body;
        }
    }
    panic!("no always block");
}

fn id(s: &str) -> Expr {
    Expr::Ident(s.into())
}

fn num(s: &str) -> Expr {
    Expr::Number(s.into())
}

fn bin(op: BinaryOp, l: Expr, r: Expr) -> Expr {
    Expr::Binary { op, left: Box::new(l), right: Box::new(r) }
}

#[test]
fn triple_gt_parses_to_ashr() {
    let body = always_body(
        "module t; reg [22:0] PM; wire sh; always @(*) PM = sh ? PM : (PM >>> 1); endmodule",
    );
    match &body.stmts()[0] {
        CstStmt::BlockingAssign { rhs: Expr::Ternary { else_expr, .. }, .. } => {
            assert_eq!(**else_expr, bin(BinaryOp::Ashr, id("PM"), num("1")));
        }
        other => panic!("unexpected {:?}", other),
    }
}

#[test]
fn signed_call_parses_to_signed() {
    let all = items("module t; wire [11:0] x; wire [11:0] y; assign y = $signed(x); endmodule");
    let found = all.iter().any(|i| {
        matches!(i, CstModuleItem::Assign { expr: Expr::Signed(x), .. } if **x == id("x"))
    });
    assert!(found);
}

#[test]
fn instance_parameters_are_kept() {
    let (file, diags) = cst(
        "module AddSub #(parameter W = 16) ();\nendmodule\nmodule Parent #(parameter W = 11) ();\n  AddSub #(.W(W)) u1 ();\nendmodule\n",
    );
    assert!(diags.is_empty());
    assert_eq!(file.modules[0].module_parameters, vec![("W".to_string(), num("16"))]);
    match &file.modules[1].items[0] {
        CstModuleItem::Instance { module_name, parameter_assignments, instance_name, connections } => {
            assert_eq!(module_name, "AddSub");
            assert_eq!(parameter_assignments, &vec![("W".to_string(), id("W"))]);
            assert_eq!(instance_name, "u1");
            assert!(connections.is_empty());
        }
        other => panic!("unexpected {:?}", other),
    }
}

#[test]
fn statement_ranges_cover_their_text() {
    let src = "module t(input a, output reg y);\n  always @(*) y = a;\nendmodule\n";
    let body = always_body(src);
    let all = body.iter_with_ranges();
    assert_eq!(all.len(), 1);
    let (start, end) = all[0].1;
    assert_eq!(&src[start as usize..end as usize], "y = a;");
}

#[test]
fn every_statement_of_a_block_has_a_range() {
    let src = "module t; task go; input v; begin a = v; b = v; end endtask\n always @(posedge c) begin x <= 1; go(q); if (k) y = 2; else begin z = 3; end end endmodule";
    let body = always_body(src);
    assert_eq!(body.len(), 4);
    assert!(!body.is_empty());
    assert_eq!(body.ranges().len(), 4);
    assert_eq!(body.iter().len(), 4);
    assert_eq!(body.range_of(1), body.range_of(2));
    assert_eq!(body.range_of(4), None);
    let (start, end) = body.range_of(1).unwrap();
    assert_eq!(&src[start as usize..end as usize], "go(q);");
    let (stmts, ranges) = body.into_parts();
    assert_eq!(stmts.len(), ranges.len());
}

#[test]
fn a_block_is_built_from_pairs() {
    let one = CstStmt::BlockingAssign { target: AssignTarget::Whole("y".into()), rhs: num("1") };
    let block = CstBlock::from_iter(vec![(one, (3, 9))]);
    assert_eq!(block.len(), 1);
    assert_eq!(block.range_of(0), Some((3, 9)));
    assert_eq!(CstBlock::default().len(), 0);
}

#[test]
fn a_function_with_bindings_is_written_out_at_its_call() {
    let all = items(
        "module t; function [7:0] f; input [7:0] a; input [7:0] b; reg [7:0] s; begin s = a + b; f = s * 2; end endfunction assign y = f(p, q); endmodule",
    );
    match &all[0] {
        CstModuleItem::Assign { expr, .. } => {
            assert_eq!(
                *expr,
                bin(BinaryOp::Mul, bin(BinaryOp::Add, id("p"), id("q")), num("2"))
            );
        }
        other => panic!("unexpected {:?}", other),
    }
}

#[test]
fn control_flow_in_a_function_is_rejected() {
    let (_, diags) = cst(
        "module t; function f; input a; begin if (a) f = 1; end endfunction endmodule",
    );
    assert_eq!(diags.len(), 1);
    assert_eq!(
        diags[0].message,
        "function `f` body must be `begin f = <expr>; end` for now"
    );
}

#[test]
fn a_task_body_is_spliced_with_its_arguments() {
    let body = always_body(
        "module t; task put; input v; begin a = v; if (v) b = v; end endtask always @* begin put(x + 1); end endmodule",
    );
    assert_eq!(body.len(), 2);
    let arg = bin(BinaryOp::Add, id("x"), num("1"));
    match &body.stmts()[0] {
        CstStmt::BlockingAssign { rhs, .. } => assert_eq!(*rhs, arg),
        other => panic!("unexpected {:?}", other),
    }
    match &body.stmts()[1] {
        CstStmt::IfElse { cond, then_body, .. } => {
            assert_eq!(*cond, arg);
            assert_eq!(then_body.len(), 1);
        }
        other => panic!("unexpected {:?}", other),
    }
}

#[test]
fn routines_do_not_leave_their_module() {
    let (file, _) = cst(
        "module a; task go; input v; x = v; endtask endmodule module b; always @* begin go(1); y = 2; end endmodule",
    );
    match &file.modules[1].items[0] {
        CstModuleItem::Always { body, .. } => {
            assert!(body.stmts().iter().all(|s| !matches!(
                s,
                CstStmt::BlockingAssign { target: AssignTarget::Whole(n), .. } if n == "x"
            )));
        }
        other => panic!("unexpected {:?}", other),
    }
}

#[test]
fn targets_may_be_concatenations() {
    let body = always_body("module t; always @* {a, b[1], {c, d[3:0]}} = 8'd7; endmodule");
    match &body.stmts()[0] {
        CstStmt::BlockingAssign { target: AssignTarget::Concat(parts), .. } => {
            assert_eq!(parts.len(), 3);
            assert!(matches!(&parts[0], AssignTarget::Whole(n) if n == "a"));
            assert!(matches!(&parts[1], AssignTarget::BitSelect { reg, .. } if reg == "b"));
            assert!(matches!(&parts[2], AssignTarget::Concat(inner) if inner.len() == 2));
        }
        other => panic!("unexpected {:?}", other),
    }
}

#[test]
fn case_statements_keep_their_kind_and_arms() {
    let body = always_body(
        "module t; always @* casez (s) 4'b1???: y = 1; 4'b01??: y = 2; default: y = 0; endcase endmodule",
    );
    match &body.stmts()[0] {
        CstStmt::Case { kind, arms, default, .. } => {
            assert_eq!(*kind, CaseKind::Z);
            assert_eq!(arms.len(), 2);
            assert_eq!(arms[0].value, num("4'b1???"));
            assert_eq!(default.len(), 1);
        }
        other => panic!("unexpected {:?}", other),
    }
}

#[test]
fn sensitivity_lists() {
    let all = items(
        "module t; always @(posedge c or negedge r) q <= d; always @* x = y; endmodule",
    );
    match &all[0] {
        CstModuleItem::Always { sensitivity: Sensitivity::EdgeList(edges), .. } => {
            assert_eq!(edges.len(), 2);
            assert_eq!(edges[0].edge, EdgeKind::Posedge);
            assert_eq!(edges[1].edge, EdgeKind::Negedge);
            assert_eq!(edges[1].signal, "r");
        }
        other => panic!("unexpected {:?}", other),
    }
    assert!(matches!(&all[1], CstModuleItem::Always { sensitivity: Sensitivity::Star, .. }));
}

#[test]
fn generate_loops_by_what_they_hold() {
    let all = items(
        "module t; genvar i; generate for (i = 0; i < W; i = i + 1) begin : g sub u (.a(x[i])); end for (i = 0; i < W; i = i + 1) begin assign y[i] = a[i] ^ b[i]; end for (i = 0; i < R; i = i + 1) begin for (j = 0; j < C; j = j + 1) begin assign z[j] = i; end end if (W > 1) assign p = 1; else assign p = 0; case (W) 1: assign q = 1; default: assign q = 0; endcase endgenerate endmodule",
    );
    assert_eq!(all.len(), 5);
    assert!(matches!(&all[0], CstModuleItem::GenerateFor { loop_var, module_name, .. } if loop_var == "i" && module_name == "sub"));
    assert!(matches!(&all[1], CstModuleItem::GenerateForAssigns { assigns, .. } if assigns.len() == 1));
    assert!(matches!(&all[2], CstModuleItem::GenerateForBody { body, .. } if body.len() == 1));
    assert!(matches!(&all[3], CstModuleItem::GenerateIf { then_body, else_body, .. } if then_body.len() == 1 && else_body.len() == 1));
    assert!(matches!(&all[4], CstModuleItem::GenerateCase { arms, default, .. } if arms.len() == 1 && default.len() == 1));
}

#[test]
fn an_inner_generate_loop_shadows_the_outer_variable() {
    let all = items(
        "module t; generate for (i = 0; i < i; i = i + 1) begin assign y[i] = i; end endgenerate endmodule",
    );
    match subst_module_item_loop_var(&all[0], "i", 3) {
        CstModuleItem::GenerateForAssigns { upper_expr, assigns, .. } => {
            assert_eq!(upper_expr, num("3"));
            assert_eq!(assigns[0].1, id("i"));
        }
        other => panic!("unexpected {:?}", other),
    }
    assert_eq!(
        subst_expr_loop_var(&bin(BinaryOp::Add, id("i"), id("k")), "i", -2),
        bin(BinaryOp::Add, num("-2"), id("k"))
    );
}

#[test]
fn precedence_binds_as_written() {
    let all = items("module t; assign y = a + b * c == d && e | f; endmodule");
    match &all[0] {
        CstModuleItem::Assign { expr, .. } => {
            assert_eq!(
                *expr,
                bin(
                    BinaryOp::LogAnd,
                    bin(
                        BinaryOp::Eq,
                        bin(BinaryOp::Add, id("a"), bin(BinaryOp::Mul, id("b"), id("c"))),
                        id("d"),
                    ),
                    bin(BinaryOp::Or, id("e"), id("f")),
                )
            );
        }
        other => panic!("unexpected {:?}", other),
    }
}

#[test]
fn a_bad_header_is_reported_in_place() {
    let res = parse_file("bad.v", "module m\n  wire x;\nendmodule\n");
    assert_eq!(res.diagnostics[0].message, "expected ';' after module header");
    assert_eq!((res.diagnostics[0].line, res.diagnostics[0].column), (2, 3));
    assert_eq!(
        res.diagnostics[0].format_line(),
        "bad.v:2:3: error: expected ';' after module header"
    );
}

fn connection_texts(src: &str) -> Vec<String> {
    let (file, _) = cst(src);
    for item in &file.modules[0].items {
        if let CstModuleItem::Instance { connections, .. } = item {
            return connections
                .iter()
                .map(|c| src[c.range.0 as usize..c.range.1 as usize].to_string())
                .collect();
        }
    }
    panic!("no instance");
}

#[test]
fn a_positional_connection_covers_its_expression_alone() {
    assert_eq!(connection_texts("module t; leaf u (x , z); endmodule"), vec!["x", "z"]);
    assert_eq!(connection_texts("module t; leaf u ( a + b /* sum */, c[1] ); endmodule"), vec![
        "a + b", "c[1]"
    ]);
    assert_eq!(connection_texts("module t; leaf u (.p( a ), .q(b)); endmodule"), vec![
        ".p( a )", ".q(b)"
    ]);
    assert_eq!(connection_texts("module t; leaf u (.p(a , .q(b)); endmodule"), vec![
        ".p(a ", ".q(b)"
    ]);
}

#[test]
fn an_assign_without_its_semicolon_ends_with_its_expression() {
    let src = "module t; assign y = a + b  endmodule";
    let (file, _) = cst(src);
    let range = file.modules[0]
        .items
        .iter()
        .find_map(|i| match i {
            CstModuleItem::Assign { range, .. } => Some(*range),
            _ => None,
        })
        .unwrap();
    assert_eq!(&src[range.0 as usize..range.1 as usize], "assign y = a + b");
}

#[test]
fn columns_count_characters() {
    let res = parse_file("u.v", "/* αβγ */ module m\n/* δ */ wire x;\nendmodule\n");
    let d = &res.diagnostics[0];
    assert_eq!((d.line, d.column), (2, 9));
}

#[test]
fn a_call_with_other_arguments_is_warned_of() {
    let src = |call: &str| {
        format!(
            "module t; function f; input a; input b; f = a + b; endfunction\nassign y = f{};\nendmodule",
            call
        )
    };
    let rhs = |call: &str| {
        let (file, diags) = cst(&src(call));
        let rhs = file.modules[0]
            .items
            .iter()
            .find_map(|i| match i {
                CstModuleItem::Assign { expr, .. } => Some(expr.clone()),
                _ => None,
            })
            .unwrap();
        (rhs, diags)
    };
    let (e, diags) = rhs("(x, y)");
    assert_eq!(e, bin(BinaryOp::Add, id("x"), id("y")));
    assert!(diags.is_empty());
    for (call, right) in [("(x, y, z)", id("y")), ("(x)", id("b"))] {
        let (e, diags) = rhs(call);
        assert_eq!(e, bin(BinaryOp::Add, id("x"), right));
        assert_eq!(diags.len(), 1);
        assert_eq!(diags[0].severity, Severity::Warning);
        assert_eq!((diags[0].line, diags[0].column), (2, 13));
        assert_eq!(diags[0].message, "function `f` is called with a wrong number of arguments");
    }
}

#[test]
fn a_task_body_must_start_with_a_statement() {
    let call = "always @(posedge c) t(q);";
    let src = |body: &str| format!("module m; task t; input v; {} {} endmodule", body, call);
    let placed = |src: &str, part: &str| (1, src.find(part).unwrap() + 1);

    let empty = src("begin end endtask task u; x = 1; endtask");
    let (file, diags) = cst(&empty);
    assert_eq!(diags.len(), 1);
    assert_eq!(diags[0].severity, Severity::Error);
    assert_eq!(diags[0].message, "task `t` body could not be parsed");
    assert_eq!((diags[0].line, diags[0].column), placed(&empty, "endtask"));
    match &file.modules[0].items[0] {
        CstModuleItem::Always { body, .. } => assert!(body.is_empty()),
        other => panic!("unexpected {:?}", other),
    }

    let bad = src("begin ; a = v; end endtask");
    let (file, diags) = cst(&bad);
    assert_eq!(diags.len(), 1);
    assert_eq!(diags[0].message, "task `t` body could not be parsed");
    assert_eq!((diags[0].line, diags[0].column), placed(&bad, "a = v"));
    match &file.modules[0].items[0] {
        CstModuleItem::Always { body, .. } => assert!(body.is_empty()),
        other => panic!("unexpected {:?}", other),
    }

    for body in [
        "begin a = v; b = v; end endtask",
        "begin a = v; ; b = v; end endtask",
        "begin a = v; b = v; endtask",
        "begin a = v; b = v;",
    ] {
        assert_eq!(always_body(&src(body)).len(), 2, "{}", body);
    }
    assert_eq!(always_body(&src("a = v; endtask")).len(), 1);
}

#[test]
fn a_function_body_ends_where_no_statement_follows() {
    let src = |body: &str| format!("module m; function f; input a; {} assign y = f(q); endmodule", body);
    for body in ["f = a; endfunction", "begin f = a; end endfunction", "begin f = a; ; end endfunction", "f = a;"] {
        let all = items(&src(body));
        match &all[0] {
            CstModuleItem::Assign { expr, .. } => assert_eq!(*expr, id("q"), "{}", body),
            other => panic!("unexpected {:?}", other),
        }
    }
    for body in ["t = a; endfunction", "begin t = a; end endfunction"] {
        let text = src(body);
        let (file, diags) = cst(&text);
        assert_eq!(diags.len(), 1);
        assert_eq!(diags[0].message, "function `f` body must be `begin f = <expr>; end` for now");
        assert_eq!((diags[0].line, diags[0].column), (1, text.find("t = a").unwrap() + 1));
        assert_eq!(file.modules[0].items.len(), 1);
    }
}
