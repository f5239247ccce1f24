//! Laws: what the operators compute, in terms of the integers.
//!
//! Two tables evaluate operators: that of the optimizer, and that of parameters. Each is
//! held here to the arithmetic of the integers, to the bits of its operands, and to its
//! other entries.
use crate::ir::{IrBinOp, IrUnaryOp};
use crate::parser::cst::{BinaryOp, UnaryOp};
use vstd::prelude::*;

verus! {

/// Two to the power of 64.
pub open spec fn period() -> int {
    0x1_0000_0000_0000_0000
}

/// `v` and `x` differ by a multiple of 2^64.
pub open spec fn same_low_bits(v: i64, x: int) -> bool {
    (v as int) % period() == x % period()
}

/// The value of a 64-bit pattern without a sign.
pub open spec fn unsigned(v: i64) -> int {
    if v < 0 {
        v + period()
    } else {
        v as int
    }
}

/// Bit `k` of a two's-complement pattern.
pub open spec fn bit(v: i64, k: u32) -> bool {
    (v >> k) & 1 == 1
}

/// The value is 1 where `b` holds, and 0 where not.
pub open spec fn truth(v: i64, b: bool) -> bool {
    (b ==> v == 1) && (!b ==> v == 0)
}

/// Quotient and remainder of a division that rounds toward zero.
pub open spec fn divides_into(l: int, r: int, quot: int, rem: int) -> bool {
    &&& l == quot * r + rem
    &&& -rem < r || -rem < -r
    &&& rem < r || rem < -r
    &&& rem > 0 ==> l > 0
    &&& rem < 0 ==> l < 0
}

/// The value of an operator of the optimizer, which divides by no zero.
pub open spec fn ir(op: IrBinOp, l: i64, r: i64) -> i64 {
    crate::optimizer::eval::binop_value(op, l, r).unwrap()
}

/// The value of an operator among parameters.
pub open spec fn par(op: BinaryOp, l: i64, r: i64) -> i64 {
    crate::expr_const::param_binop(op, l, r)
}

// ---------------------------------------------------------------------------------------
// Lemmas
// ---------------------------------------------------------------------------------------
proof fn lemma_wrapped(x: int)
    ensures
        same_low_bits(crate::arith::wrap64(x), x),
        i64::MIN <= x <= i64::MAX ==> crate::arith::wrap64(x) == x,
{
    crate::arith::lemma_wrap64(x);
}

proof fn lemma_bits_of(l: i64, r: i64, k: u32)
    by (bit_vector)
    requires
        k < 64,
    ensures
        ((l & r) >> k) & 1 == 1 <==> (l >> k) & 1 == 1 && (r >> k) & 1 == 1,
        ((l | r) >> k) & 1 == 1 <==> (l >> k) & 1 == 1 || (r >> k) & 1 == 1,
        ((l ^ r) >> k) & 1 == 1 <==> ((l >> k) & 1 == 1) != ((r >> k) & 1 == 1),
        ((!l) >> k) & 1 == 1 <==> !((l >> k) & 1 == 1),
{
}

proof fn lemma_halve(x: i64)
    by (bit_vector)
    ensures
        (x >> 1u32) + (x >> 1u32) <= x,
        x <= (x >> 1u32) + (x >> 1u32) + 1,
{
}

proof fn lemma_shr_more(x: i64, k: u32)
    by (bit_vector)
    requires
        k < 63,
    ensures
        x >> ((k + 1) as u32) == (x >> k) >> 1u32,
        x >> 0u32 == x,
{
}

/// An arithmetic right shift by `k` divides by `2^k` and rounds down.
proof fn lemma_shr_is_floor(x: i64, k: u32)
    requires
        k < 64,
    ensures
        (x >> k) as int == (x as int) / (vstd::arithmetic::power2::pow2(k as nat) as int),
    decreases k,
{
    vstd::arithmetic::power2::lemma_pow2_pos(k as nat);
    if k == 0 {
        vstd::arithmetic::power2::lemma2_to64();
        lemma_shr_more(x, 0);
    } else {
        let j = (k - 1) as u32;
        lemma_shr_is_floor(x, j);
        lemma_shr_more(x, j);
        let y = x >> j;
        lemma_halve(y);
        vstd::arithmetic::power2::lemma_pow2_unfold(k as nat);
        vstd::arithmetic::power2::lemma_pow2_pos(j as nat);
        let p = vstd::arithmetic::power2::pow2(j as nat) as int;
        let h = (y >> 1u32) as int;
        let rest = (x as int) - 2 * p * h;
        vstd::arithmetic::div_mod::lemma_fundamental_div_mod(x as int, p);
        assert(0 <= rest < 2 * p) by (nonlinear_arith)
            requires
                x as int == p * y + (x as int) % p,
                0 <= (x as int) % p < p,
                2 * h <= y <= 2 * h + 1,
                rest == (x as int) - 2 * p * h,
                p > 0,
        ;
        assert(x as int == h * (2 * p) + rest) by (nonlinear_arith)
            requires
                rest == (x as int) - 2 * p * h,
        ;
        vstd::arithmetic::div_mod::lemma_fundamental_div_mod_converse(x as int, 2 * p, h, rest);
    }
}

pub proof fn lemma_unsigned(l: i64)
    by (bit_vector)
    ensures
        l >= 0 ==> l as u64 == l,
        l < 0 ==> l as u64 == l + 0x1_0000_0000_0000_0000,
{
}

proof fn lemma_from_unsigned(u: u64)
    by (bit_vector)
    ensures
        u <= 0x7fff_ffff_ffff_ffff ==> u as i64 == u,
        u > 0x7fff_ffff_ffff_ffff ==> u as i64 == u - 0x1_0000_0000_0000_0000,
{
}

proof fn lemma_distance(r: i64)
    by (bit_vector)
    ensures
        r >= 0 ==> (r as u32) % 64 == r % 64,
        0 <= r && r <= 0xffff_ffff ==> r as u32 == r,
{
}

proof fn lemma_low_six(r: i64)
    by (bit_vector)
    ensures
        (r as u32) % 64 == (r as u64) % 64,
{
}

proof fn lemma_distance_mod(r: i64)
    ensures
        (r as u32) % 64 == (r as int) % 64,
        0 <= r <= 0xffff_ffff ==> r as u32 == r,
{
    lemma_distance(r);
    lemma_low_six(r);
    lemma_unsigned(r);
    if r < 0 {
        assert((r + period()) % 64 == (r as int) % 64);
    }
}

proof fn lemma_logical_shift(l: i64, d: u32)
    requires
        d < 64,
    ensures
        unsigned(((l as u64) >> d) as i64) == unsigned(l) / (vstd::arithmetic::power2::pow2(d as nat) as int),
{
    lemma_unsigned(l);
    lemma_from_unsigned((l as u64) >> d);
    vstd::bits::lemma_u64_shr_is_div(l as u64, d as u64);
    assert((l as u64) >> d == (l as u64) >> (d as u64)) by (bit_vector);
}

proof fn lemma_quotient(l: int, r: int)
    requires
        r != 0,
    ensures
        divides_into(l, r, crate::arith::div_trunc(l, r), crate::arith::rem_trunc(l, r)),
{
    let q = crate::arith::div_trunc(l, r);
    assert(q * r == r * q) by (nonlinear_arith);
    if l >= 0 && r > 0 {
        lemma_floor(l, r);
    } else if l < 0 && r < 0 {
        lemma_floor(-l, -r);
        assert((-r) * ((-l) / (-r)) == -(r * ((-l) / (-r)))) by (nonlinear_arith);
    } else if l < 0 {
        lemma_floor(-l, r);
        assert(r * (-((-l) / r)) == -(r * ((-l) / r))) by (nonlinear_arith);
    } else {
        lemma_floor(l, -r);
        assert(r * (-(l / (-r))) == (-r) * (l / (-r))) by (nonlinear_arith);
    }
}

proof fn lemma_floor(x: int, d: int)
    by (nonlinear_arith)
    requires
        x >= 0,
        d > 0,
    ensures
        x - d * (x / d) == x % d,
        0 <= x % d < d,
        x == 0 ==> x % d == 0,
{
}

/// A quotient in range, and a remainder.
proof fn lemma_division_value(l: i64, r: i64)
    requires
        r != 0,
    ensures
        divides_into(
            l as int,
            r as int,
            crate::arith::div_trunc(l as int, r as int),
            crate::arith::rem_trunc(l as int, r as int),
        ),
        !(l == i64::MIN && r == -1) ==> i64::MIN <= crate::arith::div_trunc(l as int, r as int)
            <= i64::MAX,
        l == i64::MIN && r == -1 ==> crate::arith::div_trunc(l as int, r as int) == -(
        i64::MIN as int),
        i64::MIN <= crate::arith::rem_trunc(l as int, r as int) <= i64::MAX,
{
    let (x, d) = (l as int, r as int);
    lemma_quotient(x, d);
    let q = crate::arith::div_trunc(x, d);
    let m = crate::arith::rem_trunc(x, d);
    assert(!(x == i64::MIN && d == -1) ==> -0x8000_0000_0000_0000 <= q <= 0x7fff_ffff_ffff_ffff)
        by (nonlinear_arith)
        requires
            x == q * d + m,
            d != 0,
            -m < d || -m < -d,
            m < d || m < -d,
            m > 0 ==> x > 0,
            m < 0 ==> x < 0,
            -0x8000_0000_0000_0000 <= x <= 0x7fff_ffff_ffff_ffff,
    ;
    if l == i64::MIN && r == -1 {
        assert((-x) / 1int == -x);
    }
}

// ---------------------------------------------------------------------------------------
// The operators of the optimizer
// ---------------------------------------------------------------------------------------
/// Every operator has a value, but for a division or a remainder by zero.
pub proof fn law_operators_are_defined(op: IrBinOp, l: i64, r: i64)
    ensures
        crate::optimizer::eval::binop_value(op, l, r) is None <==> r == 0 && (op == IrBinOp::Div
            || op == IrBinOp::Mod),
{
}

/// Comparisons order the operands as integers: each is 0 or 1; `<` and `==` are those of
/// the integers; `>` is `<` the other way round; `<=`, `>=` and `!=` are the opposites of
/// `>`, `<` and `==`; and exactly one of `<`, `==` and `>` holds.
pub proof fn law_comparisons(l: i64, r: i64)
    ensures
        truth(ir(IrBinOp::Lt, l, r), (l as int) < (r as int)),
        truth(ir(IrBinOp::Eq, l, r), l as int == r as int),
        ir(IrBinOp::Gt, l, r) == ir(IrBinOp::Lt, r, l),
        ir(IrBinOp::Ge, l, r) == ir(IrBinOp::Le, r, l),
        ir(IrBinOp::Gt, l, r) + ir(IrBinOp::Le, l, r) == 1,
        ir(IrBinOp::Lt, l, r) + ir(IrBinOp::Ge, l, r) == 1,
        ir(IrBinOp::Eq, l, r) + ir(IrBinOp::Ne, l, r) == 1,
        ir(IrBinOp::Lt, l, r) + ir(IrBinOp::Eq, l, r) + ir(IrBinOp::Gt, l, r) == 1,
{
}

/// Sums, differences and products are those of the integers, up to a multiple of 2^64, and
/// so exactly where they fit.
pub proof fn law_arithmetic(l: i64, r: i64)
    ensures
        same_low_bits(ir(IrBinOp::Add, l, r), l + r),
        same_low_bits(ir(IrBinOp::Sub, l, r), l - r),
        same_low_bits(ir(IrBinOp::Mul, l, r), l * r),
        i64::MIN <= l + r <= i64::MAX ==> ir(IrBinOp::Add, l, r) == l + r,
        i64::MIN <= l - r <= i64::MAX ==> ir(IrBinOp::Sub, l, r) == l - r,
        i64::MIN <= l * r <= i64::MAX ==> ir(IrBinOp::Mul, l, r) == l * r,
{
    lemma_wrapped(l + r);
    lemma_wrapped(l - r);
    lemma_wrapped(l * r);
}

/// A quotient and a remainder make up the dividend again; the remainder is smaller than the
/// divisor and has the sign of the dividend. Only the least number divided by minus one does
/// not fit, and wraps around.
pub proof fn law_division(l: i64, r: i64)
    requires
        r != 0,
    ensures
        !(l == i64::MIN && r == -1) ==> divides_into(
            l as int,
            r as int,
            ir(IrBinOp::Div, l, r) as int,
            ir(IrBinOp::Mod, l, r) as int,
        ),
        l == i64::MIN && r == -1 ==> ir(IrBinOp::Div, l, r) == i64::MIN && ir(IrBinOp::Mod, l, r)
            == 0,
{
    lemma_division_value(l, r);
    lemma_wrapped(crate::arith::div_trunc(l as int, r as int));
    crate::arith::lemma_wrap64(crate::arith::div_trunc(l as int, r as int));
}

/// The bitwise operators work bit by bit.
pub proof fn law_bitwise(l: i64, r: i64, k: u32)
    requires
        k < 64,
    ensures
        bit(ir(IrBinOp::And, l, r), k) <==> bit(l, k) && bit(r, k),
        bit(ir(IrBinOp::Or, l, r), k) <==> bit(l, k) || bit(r, k),
        bit(ir(IrBinOp::Xor, l, r), k) <==> bit(l, k) != bit(r, k),
        bit(crate::optimizer::eval::unop_value(IrUnaryOp::Not, l), k) <==> !bit(l, k),
{
    lemma_bits_of(l, r, k);
}

/// A left shift multiplies by a power of two, up to a multiple of 2^64; a logical right
/// shift divides the pattern without its sign and rounds down. Both go by the distance
/// modulo 64.
pub proof fn law_shifts(l: i64, r: i64)
    ensures
        same_low_bits(ir(IrBinOp::Shl, l, r), l * vstd::arithmetic::power2::pow2(((r as int) % 64) as nat)),
        unsigned(ir(IrBinOp::Shr, l, r)) == unsigned(l) / (vstd::arithmetic::power2::pow2(((r as int) % 64) as nat) as int),
{
    lemma_distance_mod(r);
    let d = (r as u32) % 64;
    crate::optimizer::value_laws::lemma_shl_is_mul(l, d);
    lemma_wrapped(l * vstd::arithmetic::power2::pow2(d as nat));
    lemma_logical_shift(l, d);
}

/// An arithmetic right shift divides by a power of two and rounds down; from a distance of
/// 63 on only the sign is left.
pub proof fn law_arithmetic_shift(l: i64, r: i64)
    requires
        0 <= r <= 0xffff_ffff,
    ensures
        r < 64 ==> ir(IrBinOp::Ashr, l, r) as int == (l as int) / (vstd::arithmetic::power2::pow2(r as nat) as int),
        r >= 63 && l < 0 ==> ir(IrBinOp::Ashr, l, r) == -1,
        r >= 63 && l >= 0 ==> ir(IrBinOp::Ashr, l, r) == 0,
{
    lemma_distance_mod(r);
    lemma_shr_is_floor(l, 63);
    lemma_sign(l);
    if r < 64 {
        lemma_shr_is_floor(l, r as u32);
    }
}

proof fn lemma_sign(l: i64)
    by (bit_vector)
    ensures
        l < 0 ==> l >> 63u32 == -1,
        l >= 0 ==> l >> 63u32 == 0,
{
}

/// The logical operators take any number but zero for true, and give 0 or 1.
pub proof fn law_logical(l: i64, r: i64)
    ensures
        truth(ir(IrBinOp::LogAnd, l, r), l != 0 && r != 0),
        truth(ir(IrBinOp::LogOr, l, r), !(l == 0 && r == 0)),
        truth(crate::optimizer::eval::unop_value(IrUnaryOp::LogNot, l), l == 0),
        same_low_bits(crate::optimizer::eval::unop_value(IrUnaryOp::Neg, l), 0 - l),
        l != i64::MIN ==> crate::optimizer::eval::unop_value(IrUnaryOp::Neg, l) == 0 - l,
{
    lemma_wrapped(-l as int);
}

// ---------------------------------------------------------------------------------------
// The operators of parameters
// ---------------------------------------------------------------------------------------
/// Comparisons among parameters order the operands as integers; see [`law_comparisons`].
pub proof fn law_parameter_comparisons(l: i64, r: i64)
    ensures
        truth(par(BinaryOp::Lt, l, r), (l as int) < (r as int)),
        truth(par(BinaryOp::Eq, l, r), l as int == r as int),
        par(BinaryOp::Gt, l, r) == par(BinaryOp::Lt, r, l),
        par(BinaryOp::Ge, l, r) == par(BinaryOp::Le, r, l),
        par(BinaryOp::Gt, l, r) + par(BinaryOp::Le, l, r) == 1,
        par(BinaryOp::Lt, l, r) + par(BinaryOp::Ge, l, r) == 1,
        par(BinaryOp::Eq, l, r) + par(BinaryOp::Ne, l, r) == 1,
        par(BinaryOp::Lt, l, r) + par(BinaryOp::Eq, l, r) + par(BinaryOp::Gt, l, r) == 1,
{
}

/// Sums, differences and products of parameters are those of the integers, up to a multiple
/// of 2^64, and so exactly where they fit.
pub proof fn law_parameter_arithmetic(l: i64, r: i64)
    ensures
        same_low_bits(par(BinaryOp::Add, l, r), l + r),
        same_low_bits(par(BinaryOp::Sub, l, r), l - r),
        same_low_bits(par(BinaryOp::Mul, l, r), l * r),
        i64::MIN <= l + r <= i64::MAX ==> par(BinaryOp::Add, l, r) == l + r,
        i64::MIN <= l - r <= i64::MAX ==> par(BinaryOp::Sub, l, r) == l - r,
        i64::MIN <= l * r <= i64::MAX ==> par(BinaryOp::Mul, l, r) == l * r,
{
    lemma_wrapped(l + r);
    lemma_wrapped(l - r);
    lemma_wrapped(l * r);
}

/// A quotient and a remainder of parameters make up the dividend again; dividing by zero
/// gives zero.
pub proof fn law_parameter_division(l: i64, r: i64)
    ensures
        r == 0 ==> par(BinaryOp::Div, l, r) == 0 && par(BinaryOp::Mod, l, r) == 0,
        r != 0 && !(l == i64::MIN && r == -1) ==> divides_into(
            l as int,
            r as int,
            par(BinaryOp::Div, l, r) as int,
            par(BinaryOp::Mod, l, r) as int,
        ),
        l == i64::MIN && r == -1 ==> par(BinaryOp::Div, l, r) == i64::MIN && par(
            BinaryOp::Mod,
            l,
            r,
        ) == 0,
{
    if r != 0 {
        lemma_division_value(l, r);
        lemma_wrapped(crate::arith::div_trunc(l as int, r as int));
        crate::arith::lemma_wrap64(crate::arith::div_trunc(l as int, r as int));
    }
}

/// The bitwise operators on parameters work bit by bit.
pub proof fn law_parameter_bitwise(l: i64, r: i64, k: u32)
    requires
        k < 64,
    ensures
        bit(par(BinaryOp::And, l, r), k) <==> bit(l, k) && bit(r, k),
        bit(par(BinaryOp::Or, l, r), k) <==> bit(l, k) || bit(r, k),
        bit(par(BinaryOp::Xor, l, r), k) <==> bit(l, k) != bit(r, k),
        bit(crate::expr_const::param_unop(UnaryOp::Not, l), k) <==> !bit(l, k),
{
    lemma_bits_of(l, r, k);
}

/// A left shift of a parameter multiplies it by a power of two: exactly where the product
/// fits, up to a multiple of 2^64 otherwise. Both right shifts divide by a power of two and
/// round down. A distance of 63 or more is taken for 63.
pub proof fn law_parameter_shifts(l: i64, r: i64)
    requires
        0 <= r <= 0xffff_ffff,
    ensures
        ({
            let d: nat = if r < 63 {
                r as nat
            } else {
                63
            };
            &&& same_low_bits(par(BinaryOp::Shl, l, r), l * vstd::arithmetic::power2::pow2(d))
            &&& i64::MIN <= l * vstd::arithmetic::power2::pow2(d) <= i64::MAX ==> par(BinaryOp::Shl, l, r) == l * vstd::arithmetic::power2::pow2(d)
            &&& par(BinaryOp::Shr, l, r) as int == (l as int) / (vstd::arithmetic::power2::pow2(d) as int)
            &&& par(BinaryOp::Ashr, l, r) as int == (l as int) / (vstd::arithmetic::power2::pow2(d) as int)
        }),
{
    lemma_distance_mod(r);
    let d: u32 = if r < 63 {
        r as u32
    } else {
        63
    };
    crate::optimizer::value_laws::lemma_shl_is_mul(l, d);
    lemma_wrapped(l * vstd::arithmetic::power2::pow2(d as nat));
    lemma_shr_is_floor(l, d);
}

/// The logical operators on parameters take any number but zero for true, and give 0 or 1.
pub proof fn law_parameter_logical(l: i64, r: i64)
    ensures
        truth(par(BinaryOp::LogAnd, l, r), l != 0 && r != 0),
        truth(par(BinaryOp::LogOr, l, r), !(l == 0 && r == 0)),
        truth(crate::expr_const::param_unop(UnaryOp::LogNot, l), l == 0),
        crate::expr_const::param_unop(UnaryOp::Pos, l) == l,
        same_low_bits(crate::expr_const::param_unop(UnaryOp::Neg, l), 0 - l),
        l != i64::MIN ==> crate::expr_const::param_unop(UnaryOp::Neg, l) == 0 - l,
{
    lemma_wrapped(-l as int);
}

/// Reading the low `width` bits of a number as a signed one keeps those bits, and gives all
/// the bits above them the value of the topmost of them.
pub proof fn law_sign_extension(v: i64, width: u32, k: u32)
    requires
        0 < width < 64,
        k < 64,
    ensures
        k < width ==> bit(crate::arith::sign_extend(v, width), k) == bit(v, k),
        k >= width ==> bit(crate::arith::sign_extend(v, width), k) == bit(
            v,
            (width - 1) as u32,
        ),
{
    lemma_extended_bits(v, width, k);
}

proof fn lemma_extended_bits(v: i64, width: u32, k: u32)
    by (bit_vector)
    requires
        0 < width < 64,
        k < 64,
    ensures
        k < width ==> ((((v << ((64 - width) as u32)) >> ((64 - width) as u32)) >> k) & 1 == 1) == ((
        v >> k) & 1 == 1),
        k >= width ==> ((((v << ((64 - width) as u32)) >> ((64 - width) as u32)) >> k) & 1 == 1)
            == ((v >> ((width - 1) as u32)) & 1 == 1),
{
}

} // verus!
