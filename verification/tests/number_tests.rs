//! Number literals and constant expressions.
use verilog_core::delay_rational::DelayRational;
use verilog_core::expr_const::{
    const_eval_param_expr, parse_verilog_number, resolve_local_param_values, verilog_clog2,
};
use verilog_core::number::{i64_text, pad_zeros, parse_signed, radix_text};
use verilog_core::parser::cst::{BinaryOp, Expr, UnaryOp};

#[test]
fn sized_signed_decimal_parses_magnitude() {
    assert_eq!(parse_verilog_number("11'sd3"), 3);
    assert_eq!(parse_verilog_number("11'SD3"), 3);
}

#[test]
fn sized_signed_hex_after_s_marker() {
    assert_eq!(parse_verilog_number("8'shFF"), 255);
}

#[test]
fn unsized_unsigned_still_works() {
    assert_eq!(parse_verilog_number("11'd3"), 3);
}

#[test]
fn unary_neg_of_signed_sized_decimal_is_negative() {
    let e = Expr::Unary {
        op: UnaryOp::Neg,
        operand: Box::new(Expr::Number("11'sd3".into())),
    };
    assert_eq!(const_eval_param_expr(&e, &[]), Some(-3));
}

#[test]
fn literals_in_every_base() {
    assert_eq!(parse_verilog_number("8'b1010_0101"), 0xA5);
    assert_eq!(parse_verilog_number("12'o777"), 0o777);
    assert_eq!(parse_verilog_number("'hff"), 255);
    assert_eq!(parse_verilog_number("1_000"), 1000);
    assert_eq!(parse_verilog_number("nonsense"), 0);
}

#[test]
fn clog2_is_the_bits_to_count_to_n() {
    assert_eq!(verilog_clog2(0), 0);
    assert_eq!(verilog_clog2(1), 0);
    assert_eq!(verilog_clog2(2), 1);
    assert_eq!(verilog_clog2(9), 4);
    assert_eq!(verilog_clog2(16), 4);
    assert_eq!(verilog_clog2(17), 5);
}

fn num(s: &str) -> Expr {
    Expr::Number(s.into())
}

fn id(s: &str) -> Expr {
    Expr::Ident(s.into())
}

fn bin(op: BinaryOp, l: Expr, r: Expr) -> Expr {
    Expr::Binary { op, left: Box::new(l), right: Box::new(r) }
}

#[test]
fn parameters_resolve_in_any_order() {
    let pairs = vec![
        ("D".to_string(), bin(BinaryOp::Mul, id("W"), num("2"))),
        ("W".to_string(), bin(BinaryOp::Add, id("B"), num("1"))),
        ("B".to_string(), num("8")),
        ("Lost".to_string(), id("nowhere")),
        ("L".to_string(), Expr::Clog2(Box::new(id("D")))),
    ];
    let got = resolve_local_param_values(&pairs);
    let value = |n: &str| got.iter().find(|p| p.0 == n).map(|p| p.1);
    assert_eq!(value("B"), Some(8));
    assert_eq!(value("W"), Some(9));
    assert_eq!(value("D"), Some(18));
    assert_eq!(value("L"), Some(5));
    assert_eq!(value("Lost"), None);
}

#[test]
fn an_undecided_operand_leaves_the_value_open() {
    let known = vec![("a".to_string(), 6i64)];
    assert_eq!(const_eval_param_expr(&bin(BinaryOp::Div, id("a"), num("2")), &known), Some(3));
    assert_eq!(const_eval_param_expr(&bin(BinaryOp::Div, id("a"), num("0")), &known), Some(0));
    assert_eq!(const_eval_param_expr(&bin(BinaryOp::Add, id("a"), id("b")), &known), None);
}

#[test]
fn decimal_text_reads_back() {
    for n in [i64::MIN, -1, 0, 7, 10, 99, 100, i64::MAX] {
        let text = i64_text(n);
        assert_eq!(text, n.to_string());
        let chars: Vec<char> = text.chars().collect();
        assert_eq!(parse_signed(&chars, 10), Some(n));
    }
}

#[test]
fn digits_in_a_base() {
    assert_eq!(radix_text(0, 2), "0");
    assert_eq!(radix_text(10, 2), "1010");
    assert_eq!(radix_text(0xBEEF, 16), "BEEF");
    assert_eq!(pad_zeros("101", 5), "00101");
    assert_eq!(pad_zeros("101", 2), "101");
}

#[test]
fn delays_are_exact() {
    assert_eq!(DelayRational::zero(), DelayRational { numer: 0, denom: 1 });
    assert_eq!(DelayRational::from_delay_lexeme("5"), DelayRational { numer: 5, denom: 1 });
    assert_eq!(DelayRational::from_delay_lexeme("2.5"), DelayRational { numer: 25, denom: 10 });
    assert_eq!(DelayRational::from_delay_lexeme("x.y"), DelayRational { numer: 0, denom: 1 });
}
