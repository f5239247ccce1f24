//! Laws: which expressions are rewritten, and to what.
use crate::ir::{ExprM, IrBinOp, IrUnaryOp};
use super::eval::Env;
use super::rewrite::Rule;
use vstd::prelude::*;

verus! {

/// `l op r`.
pub open spec fn two(op: IrBinOp, l: ExprM, r: ExprM) -> ExprM {
    ExprM::Binary { op, left: Box::new(l), right: Box::new(r) }
}

/// `op x`.
pub open spec fn one(op: IrUnaryOp, x: ExprM) -> ExprM {
    ExprM::Unary { op, operand: Box::new(x) }
}

/// `c ? t : e`.
pub open spec fn choice(c: ExprM, t: ExprM, e: ExprM) -> ExprM {
    ExprM::Ternary { cond: Box::new(c), then_expr: Box::new(t), else_expr: Box::new(e) }
}

pub open spec fn num(v: i64) -> ExprM {
    ExprM::Const(v)
}

/// The algebraic rules turn the expression into this one.
pub open spec fn becomes(e: ExprM, to: ExprM) -> bool {
    super::rules::rewrite_m(e) == Some(to)
}

/// Operators over constants are computed, if they are defined there.
pub proof fn law_constants_fold(op: IrBinOp, un: IrUnaryOp, a: i64, b: i64)
    ensures
        !((op == IrBinOp::Div || op == IrBinOp::Mod) && b == 0) ==> becomes(
            two(op, num(a), num(b)),
            num(crate::operator_laws::ir(op, a, b)),
        ),
        becomes(one(un, num(a)), num(super::eval::unop_value(un, a))),
{
}

/// Neutral and absorbing operands, on either side, and equal operands.
pub proof fn law_identities(x: ExprM, c: i64)
    requires
        !(x is Const),
    ensures
        becomes(two(IrBinOp::Add, x, num(0)), x),
        becomes(two(IrBinOp::Add, num(0), x), x),
        becomes(two(IrBinOp::Sub, x, num(0)), x),
        becomes(two(IrBinOp::Sub, x, x), num(0)),
        becomes(two(IrBinOp::Mul, x, num(0)), num(0)),
        becomes(two(IrBinOp::Mul, num(0), x), num(0)),
        becomes(two(IrBinOp::Mul, x, num(1)), x),
        becomes(two(IrBinOp::Mul, num(1), x), x),
        becomes(two(IrBinOp::Div, x, num(1)), x),
        becomes(two(IrBinOp::Div, x, x), num(1)),
        becomes(two(IrBinOp::Mod, x, x), num(0)),
        becomes(two(IrBinOp::And, x, num(0)), num(0)),
        becomes(two(IrBinOp::And, num(0), x), num(0)),
        becomes(two(IrBinOp::And, x, x), x),
        becomes(two(IrBinOp::Or, x, num(0)), x),
        becomes(two(IrBinOp::Or, num(0), x), x),
        becomes(two(IrBinOp::Or, x, x), x),
        becomes(two(IrBinOp::Xor, x, num(0)), x),
        becomes(two(IrBinOp::Xor, num(0), x), x),
        becomes(two(IrBinOp::Xor, x, x), num(0)),
        becomes(two(IrBinOp::Shl, x, num(0)), x),
        becomes(two(IrBinOp::Shr, x, num(0)), x),
        becomes(two(IrBinOp::Ashr, x, num(0)), x),
        becomes(two(IrBinOp::Eq, x, x), num(1)),
        becomes(two(IrBinOp::Ne, x, x), num(0)),
        becomes(two(IrBinOp::Lt, x, x), num(0)),
        becomes(two(IrBinOp::Le, x, x), num(1)),
        becomes(two(IrBinOp::Gt, x, x), num(0)),
        becomes(two(IrBinOp::Ge, x, x), num(1)),
        becomes(two(IrBinOp::LogAnd, x, num(0)), num(0)),
        becomes(two(IrBinOp::LogAnd, num(0), x), num(0)),
        c != 0 ==> becomes(two(IrBinOp::LogOr, x, num(c)), num(1)),
        c != 0 ==> becomes(two(IrBinOp::LogOr, num(c), x), num(1)),
{
}

/// `x & (x | y)` and `x | (x & y)`, in every order, are `x`.
pub proof fn law_absorption(x: ExprM, y: ExprM)
    requires
        x != num(0),
    ensures
        becomes(two(IrBinOp::And, x, two(IrBinOp::Or, x, y)), x),
        becomes(two(IrBinOp::And, x, two(IrBinOp::Or, y, x)), x),
        becomes(two(IrBinOp::And, two(IrBinOp::Or, x, y), x), x),
        becomes(two(IrBinOp::And, two(IrBinOp::Or, y, x), x), x),
        becomes(two(IrBinOp::Or, x, two(IrBinOp::And, x, y)), x),
        becomes(two(IrBinOp::Or, x, two(IrBinOp::And, y, x)), x),
        becomes(two(IrBinOp::Or, two(IrBinOp::And, x, y), x), x),
        becomes(two(IrBinOp::Or, two(IrBinOp::And, y, x), x), x),
{
}

/// Multiplying by a power of two from 2 on becomes a shift to the left, dividing by one a
/// shift to the right, and the remainder of one keeps the bits below it.
pub proof fn law_powers_of_two(x: ExprM, n: i64, k: nat)
    requires
        !(x is Const),
        0 < k < 63,
        n == vstd::arithmetic::power2::pow2(k),
    ensures
        becomes(two(IrBinOp::Mul, x, num(n)), two(IrBinOp::Shl, x, num(k as i64))),
        becomes(two(IrBinOp::Mul, num(n), x), two(IrBinOp::Shl, x, num(k as i64))),
        becomes(two(IrBinOp::Div, x, num(n)), two(IrBinOp::Shr, x, num(k as i64))),
        becomes(two(IrBinOp::Mod, x, num(n)), two(IrBinOp::And, x, num((n - 1) as i64))),
{
    super::rules::lemma_log2_of(n, k);
    vstd::arithmetic::power2::lemma_pow2_strictly_increases(0, k);
    vstd::arithmetic::power2::lemma2_to64();
}

/// An operand and its complement.
pub proof fn law_complements(x: ExprM)
    requires
        !(x is Const),
    ensures
        becomes(two(IrBinOp::And, x, one(IrUnaryOp::Not, x)), num(0)),
        becomes(two(IrBinOp::And, one(IrUnaryOp::Not, x), x), num(0)),
        becomes(two(IrBinOp::Or, x, one(IrUnaryOp::Not, x)), num((-1) as i64)),
        becomes(two(IrBinOp::Or, one(IrUnaryOp::Not, x), x), num((-1) as i64)),
        becomes(two(IrBinOp::Xor, x, one(IrUnaryOp::Not, x)), num((-1) as i64)),
        becomes(two(IrBinOp::Xor, one(IrUnaryOp::Not, x), x), num((-1) as i64)),
{
}

/// Two constants of a sum, a product or a bitwise operator are brought together.
pub proof fn law_constants_meet(op: IrBinOp, x: ExprM, a: i64, b: i64)
    requires
        op == IrBinOp::Add || op == IrBinOp::Mul || op == IrBinOp::And || op == IrBinOp::Or || op
            == IrBinOp::Xor,
        !(x is Const),
        a != 0 && b != 0,
        op == IrBinOp::Mul ==> no_power_of_two(a) && no_power_of_two(b),
    ensures
        becomes(
            two(op, two(op, x, num(a)), num(b)),
            two(op, x, num(crate::operator_laws::ir(op, a, b))),
        ),
        becomes(
            two(op, num(a), two(op, x, num(b))),
            two(op, x, num(crate::operator_laws::ir(op, a, b))),
        ),
{
    if op == IrBinOp::Mul {
        vstd::arithmetic::power2::lemma2_to64();
        assert(1 == vstd::arithmetic::power2::pow2(0));
        assert(a != 1 && b != 1);
    }
}

pub open spec fn no_power_of_two(n: i64) -> bool {
    forall|k: nat| n != #[trigger] vstd::arithmetic::power2::pow2(k)
}

/// A prefix operator twice is dropped, and a complement moves into `&` and `|`.
pub proof fn law_prefix_operators(op: IrUnaryOp, x: ExprM, y: ExprM)
    ensures
        becomes(one(op, one(op, x)), x),
        becomes(
            one(IrUnaryOp::Not, two(IrBinOp::And, x, y)),
            two(IrBinOp::Or, one(IrUnaryOp::Not, x), one(IrUnaryOp::Not, y)),
        ),
        becomes(
            one(IrUnaryOp::Not, two(IrBinOp::Or, x, y)),
            two(IrBinOp::And, one(IrUnaryOp::Not, x), one(IrUnaryOp::Not, y)),
        ),
{
}

/// A conditional over a constant is the arm it chooses; with equal arms, it is that arm.
pub proof fn law_conditionals(c: i64, x: ExprM, t: ExprM, e: ExprM)
    ensures
        c != 0 ==> becomes(choice(num(c), t, e), t),
        becomes(choice(num(0), t, e), e),
        becomes(choice(x, t, t), t),
{
}

/// The peephole rules: a doubled operand is a shift, negations merge into sums and
/// differences, a shift there and back is a mask of the low bits, and an operator over a
/// conditional between constants moves into its arms.
pub proof fn law_peephole(op: IrBinOp, x: ExprM, y: ExprM, n: i64, a: i64, b: i64, c: i64)
    requires
        !(x is Ternary) && !(y is Ternary),
    ensures
        ({
            let to = |e: ExprM| super::rules::peephole_m(e);
            let neg = |e: ExprM| one(IrUnaryOp::Neg, e);
            &&& to(two(IrBinOp::Add, x, x)) == Some(two(IrBinOp::Shl, x, num(1)))
            &&& y != neg(x) ==> to(two(IrBinOp::Add, neg(x), y)) == Some(two(IrBinOp::Sub, y, x))
            &&& !(y is Unary) ==> to(two(IrBinOp::Add, y, neg(x))) == Some(
                two(IrBinOp::Sub, y, x),
            )
            &&& to(two(IrBinOp::Sub, y, neg(x))) == Some(two(IrBinOp::Add, y, x))
            &&& 0 < n < 64 ==> to(two(IrBinOp::Shr, two(IrBinOp::Shl, x, num(n)), num(n))) == Some(
                two(
                    IrBinOp::And,
                    x,
                    num((vstd::arithmetic::power2::pow2((64 - n) as nat) - 1) as i64),
                ),
            )
            &&& to(two(op, choice(x, num(a), num(b)), num(c))) == Some(
                choice(x, two(op, num(a), num(c)), two(op, num(b), num(c))),
            )
            &&& to(two(op, num(c), choice(x, num(a), num(b)))) == Some(
                choice(x, two(op, num(c), num(a)), two(op, num(c), num(b))),
            )
        }),
{
    if 0 < n < 64 {
        lemma_low_mask(n);
    }
}

proof fn lemma_low_mask(n: i64)
    requires
        0 < n < 64,
    ensures
        super::rules::low_mask(n) == vstd::arithmetic::power2::pow2((64 - n) as nat) - 1,
    decreases n,
{
    vstd::arithmetic::power2::lemma2_to64();
    vstd::arithmetic::power2::lemma2_to64_rest();
    if n == 1 {
        assert(i64::MAX >> 0u32 == i64::MAX) by (bit_vector);
    } else {
        lemma_low_mask((n - 1) as i64);
        let k = (n - 2) as u32;
        assert(k < 62 ==> (i64::MAX >> ((k + 1) as u32)) == (i64::MAX >> k) / 2) by (bit_vector);
        vstd::arithmetic::power2::lemma_pow2_unfold((65 - n) as nat);
        assert(super::rules::low_mask((n - 1) as i64) == i64::MAX >> k);
    }
}

/// The sinking rules: a condition that is tested again inside its own arm is decided there,
/// and an operand that both arms share moves out of them.
pub proof fn law_sinking(op: IrBinOp, c: ExprM, x: ExprM, a: ExprM, b: ExprM, e: ExprM)
    requires
        !(x is Const),
        !(a is Ternary) && !(b is Ternary) && !(e is Ternary),
    ensures
        ({
            let to = |e: ExprM| super::rules::sink_m(e);
            &&& to(choice(c, choice(c, a, b), e)) == Some(choice(c, a, e))
            &&& to(choice(c, e, choice(c, a, b))) == Some(choice(c, e, b))
            &&& to(choice(c, two(op, a, x), two(op, b, x))) == Some(two(op, choice(c, a, b), x))
            &&& a != b ==> to(choice(c, two(op, x, a), two(op, x, b))) == Some(
                two(op, x, choice(c, a, b)),
            )
        }),
{
}

/// The expression is made of constants and operators alone, and divides by nothing that is
/// zero.
pub open spec fn closed(e: ExprM, env: Env) -> bool
    decreases e,
{
    match e {
        ExprM::Const(_) => true,
        ExprM::Binary { op, left, right } => closed(*left, env) && closed(*right, env) && !((op
            == IrBinOp::Div || op == IrBinOp::Mod) && super::eval::eval(*right, env) == 0),
        ExprM::Unary { op, operand } => closed(*operand, env),
        ExprM::Ternary { cond, then_expr, else_expr } => closed(*cond, env) && closed(
            *then_expr,
            env,
        ) && closed(*else_expr, env),
        _ => false,
    }
}

/// One traversal computes an expression of constants altogether: what is left is its value.
pub proof fn law_closed_expression_folds(e: ExprM, env: Env)
    requires
        closed(e, env),
    ensures
        super::rewrite::rewritten(Rule::Algebraic, e) == num(super::eval::eval(e, env)),
    decreases e,
{
    match e {
        ExprM::Binary { op, left, right } => {
            law_closed_expression_folds(*left, env);
            law_closed_expression_folds(*right, env);
        },
        ExprM::Unary { op, operand } => {
            law_closed_expression_folds(*operand, env);
        },
        ExprM::Ternary { cond, then_expr, else_expr } => {
            law_closed_expression_folds(*cond, env);
            law_closed_expression_folds(*then_expr, env);
            law_closed_expression_folds(*else_expr, env);
        },
        _ => {},
    }
}

/// The value of an expression by its parts.
pub proof fn law_value_by_parts(
    c: ExprM,
    t: ExprM,
    e: ExprM,
    op: IrBinOp,
    un: IrUnaryOp,
    name: Seq<char>,
    v: i64,
    env: Env,
)
    ensures
        ({
            let value = |e: ExprM| super::eval::eval(e, env);
            &&& value(num(v)) == v
            &&& value(ExprM::Ident(name)) == (env.ident)(name)
            &&& value(c) != 0 ==> value(choice(c, t, e)) == value(t)
            &&& value(c) == 0 ==> value(choice(c, t, e)) == value(e)
            &&& !((op == IrBinOp::Div || op == IrBinOp::Mod) && value(e) == 0) ==> value(
                two(op, t, e),
            ) == crate::operator_laws::ir(op, value(t), value(e))
            &&& value(one(un, t)) == super::eval::unop_value(un, value(t))
        }),
{
    reveal_with_fuel(super::eval::eval, 2);
}

/// Operators whose operands may change places.
pub open spec fn symmetric(op: IrBinOp) -> bool {
    match op {
        IrBinOp::Add | IrBinOp::Mul | IrBinOp::And | IrBinOp::Or | IrBinOp::Xor | IrBinOp::Eq
        | IrBinOp::Ne | IrBinOp::LogAnd | IrBinOp::LogOr => true,
        _ => false,
    }
}

/// In canonical order, the operands of a symmetric operator stand as names, then compound
/// expressions, then constants; other operators keep their order.
pub proof fn law_canonical_order(op: IrBinOp, x: ExprM, name: Seq<char>, other: Seq<char>, v: i64, w: i64)
    requires
        !(x is Const) && !(x is Ident),
    ensures
        ({
            let to = |e: ExprM| super::canonical::canonical(e);
            let (n, m, k) = (ExprM::Ident(name), ExprM::Ident(other), num(v));
            let y = to(x);
            &&& !(y is Const) && !(y is Ident)
            &&& symmetric(op) ==> to(two(op, x, n)) == two(op, n, y)
            &&& symmetric(op) ==> to(two(op, k, n)) == two(op, n, k)
            &&& symmetric(op) ==> to(two(op, k, x)) == two(op, y, k)
            &&& symmetric(op) && w < v ==> to(two(op, k, num(w))) == two(op, num(w), k)
            &&& symmetric(op) && crate::text::text_lt(other, name) ==> to(two(op, n, m)) == two(
                op,
                m,
                n,
            )
            &&& to(two(op, n, x)) == two(op, n, y)
            &&& to(two(op, n, k)) == two(op, n, k)
            &&& to(two(op, x, k)) == two(op, y, k)
            &&& !symmetric(op) ==> to(two(op, x, n)) == two(op, y, n)
            &&& !symmetric(op) ==> to(two(op, k, n)) == two(op, k, n)
            &&& !symmetric(op) ==> to(two(op, k, x)) == two(op, k, y)
        }),
{
    reveal_with_fuel(super::canonical::canonical, 3);
}

} // verus!
