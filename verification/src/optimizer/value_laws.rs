//! Laws: the rewrite rules keep the value of an expression.
//!
//! The value is taken in any environment (see [`super::eval::Env`]). Three algebraic
//! rules are exact only on part of their inputs; [`exact_at`] says which part.
use super::eval::Env;
use crate::ir::{ExprM, IrBinOp, IrUnaryOp};
use vstd::prelude::*;

verus! {

proof fn lemma_bits(a: i64, b: i64)
    by (bit_vector)
    ensures
        a & 0 == 0,
        0 & a == 0,
        a | 0 == a,
        0 | a == a,
        a ^ 0 == a,
        0 ^ a == a,
        a & a == a,
        a | a == a,
        a ^ a == 0,
        a & (a | b) == a,
        a & (b | a) == a,
        (a | b) & a == a,
        (b | a) & a == a,
        a | (a & b) == a,
        a | (b & a) == a,
        (a & b) | a == a,
        (b & a) | a == a,
        a & !a == 0,
        !a & a == 0,
        a | !a == -1,
        !a | a == -1,
        a ^ !a == -1,
        !a ^ a == -1,
        !(!a) == a,
        !(a & b) == !a | !b,
        !(a | b) == !a & !b,
        a & b == b & a,
        a | b == b | a,
        a ^ b == b ^ a,
{
}

proof fn lemma_bits_assoc(x: i64, c: i64, d: i64)
    by (bit_vector)
    ensures
        (x & c) & d == x & (c & d),
        (x | c) | d == x | (c | d),
        (x ^ c) ^ d == x ^ (c ^ d),
        c & (x & d) == x & (c & d),
        c | (x | d) == x | (c | d),
        c ^ (x ^ d) == x ^ (c ^ d),
{
}

proof fn lemma_shift_zero(x: i64)
    by (bit_vector)
    ensures
        x << 0u32 == x,
        ((x as u64) >> 0u32) as i64 == x,
        x >> 0u32 == x,
{
}

proof fn lemma_shift_one(x: i64)
    by (bit_vector)
    ensures
        -0x4000_0000_0000_0000 <= x && x < 0x4000_0000_0000_0000 ==> x << 1u32 == x + x,
        x >= 0x4000_0000_0000_0000 ==> x << 1u32 == x + x - 0x1_0000_0000_0000_0000,
        x < -0x4000_0000_0000_0000 ==> x << 1u32 == x + x + 0x1_0000_0000_0000_0000,
{
}

proof fn lemma_shift_step(x: i64, k: u32)
    by (bit_vector)
    requires
        k < 63,
    ensures
        x << ((k + 1) as u32) == (x << k) << 1u32,
{
}

proof fn lemma_shift_mask(a: i64, n: u32)
    by (bit_vector)
    requires
        0 < n < 64,
    ensures
        (((a << n) as u64) >> n) as i64 == a & (i64::MAX >> ((n - 1) as u32)),
{
}

/// Wrapping an operand first does not change a wrapped sum, difference or product.
pub proof fn lemma_wrap_operand(a: int, b: int)
    ensures
        crate::arith::wrap64(a + crate::arith::wrap64(b)) == crate::arith::wrap64(a + b),
        crate::arith::wrap64(crate::arith::wrap64(a) + b) == crate::arith::wrap64(a + b),
        crate::arith::wrap64(a - crate::arith::wrap64(b)) == crate::arith::wrap64(a - b),
        crate::arith::wrap64(a * crate::arith::wrap64(b)) == crate::arith::wrap64(a * b),
        crate::arith::wrap64(crate::arith::wrap64(a) * b) == crate::arith::wrap64(a * b),
{
    let m = 0x1_0000_0000_0000_0000int;
    let wa = crate::arith::wrap64(a) as int;
    let wb = crate::arith::wrap64(b) as int;
    assert(wa % m == a % m);
    assert(wb % m == b % m);
    vstd::arithmetic::div_mod::lemma_add_mod_noop_right(a, b, m);
    vstd::arithmetic::div_mod::lemma_add_mod_noop_right(a, wb, m);
    vstd::arithmetic::div_mod::lemma_add_mod_noop_right(b, a, m);
    vstd::arithmetic::div_mod::lemma_add_mod_noop_right(b, wa, m);
    vstd::arithmetic::div_mod::lemma_sub_mod_noop_right(a, b, m);
    vstd::arithmetic::div_mod::lemma_sub_mod_noop_right(a, wb, m);
    vstd::arithmetic::div_mod::lemma_mul_mod_noop_right(a, b, m);
    vstd::arithmetic::div_mod::lemma_mul_mod_noop_right(a, wb, m);
    vstd::arithmetic::div_mod::lemma_mul_mod_noop_right(b, a, m);
    vstd::arithmetic::div_mod::lemma_mul_mod_noop_right(b, wa, m);
    assert(a * b == b * a) by (nonlinear_arith);
    assert(wa * b == b * wa) by (nonlinear_arith);
}

/// A left shift by `k` is a wrapped multiplication by `2^k`.
pub proof fn lemma_shl_is_mul(x: i64, k: u32)
    requires
        k < 64,
    ensures
        x << k == crate::arith::wrap64(x * vstd::arithmetic::power2::pow2(k as nat)),
    decreases k,
{
    if k == 0 {
        lemma_shift_zero(x);
        vstd::arithmetic::power2::lemma2_to64();
        crate::arith::lemma_wrap64(x as int);
    } else {
        let j = (k - 1) as u32;
        lemma_shl_is_mul(x, j);
        lemma_shift_step(x, j);
        let y = x << j;
        lemma_shift_one(y);
        crate::arith::lemma_wrap64(y + y);
        let p = vstd::arithmetic::power2::pow2(j as nat) as int;
        vstd::arithmetic::power2::lemma_pow2_unfold(k as nat);
        lemma_wrap_operand(2, x * p);
        assert(2 * (x * p) == x * (2 * p)) by (nonlinear_arith);
    }
}

/// Division of a non-negative value by `2^k` is a logical right shift.
proof fn lemma_shr_is_div(x: i64, n: i64, k: u32)
    requires
        x >= 0,
        k < 63,
        n == vstd::arithmetic::power2::pow2(k as nat),
    ensures
        ((x as u64) >> k) as i64 == crate::arith::div_trunc(x as int, n as int),
        n > 0,
{
    vstd::arithmetic::power2::lemma_pow2_pos(k as nat);
    vstd::bits::lemma_u64_shr_is_div(x as u64, k as u64);
    assert((x as u64) >> k == (x as u64) >> (k as u64)) by (bit_vector);
    assert(0 <= (x as int) / (n as int) <= x) by (nonlinear_arith)
        requires
            x >= 0,
            n > 0,
    ;
}

/// Masking with `2^k - 1` is the remainder by `2^k`, for a dividend that is not negative
/// or is a multiple of the divisor.
proof fn lemma_mask_is_rem(x: i64, n: i64, k: nat)
    requires
        k < 63,
        n == vstd::arithmetic::power2::pow2(k),
        x >= 0 || (x as int) % (n as int) == 0,
    ensures
        n > 0,
        x & ((n - 1) as i64) == crate::arith::rem_trunc(x as int, n as int),
{
    vstd::arithmetic::power2::lemma_pow2_pos(k);
    let m = (n - 1) as i64;
    let u = x as u64;
    let mu = m as u64;
    vstd::bits::lemma_u64_low_bits_mask_is_mod(u, k);
    assert(m >= 0 ==> x & m == ((x as u64) & (m as u64)) as i64) by (bit_vector);
    assert(u & mu == u % (n as u64));
    if x >= 0 {
        assert((x as int) - (n as int) * ((x as int) / (n as int)) == (x as int) % (n as int))
            by (nonlinear_arith)
            requires
                n > 0,
        ;
    } else {
        assert(x < 0 ==> x as u64 == x + 0x1_0000_0000_0000_0000) by (bit_vector);
        let q = vstd::arithmetic::power2::pow2((64 - k) as nat) as int;
        vstd::arithmetic::power2::lemma_pow2_adds(k, (64 - k) as nat);
        vstd::arithmetic::power2::lemma2_to64();
        vstd::arithmetic::power2::lemma2_to64_rest();
        assert(n * q == 0x1_0000_0000_0000_0000);
        vstd::arithmetic::div_mod::lemma_mod_multiples_vanish(q, x as int, n as int);
        assert((u as int) % (n as int) == 0);
        vstd::arithmetic::div_mod::lemma_fundamental_div_mod(x as int, n as int);
        vstd::arithmetic::div_mod::lemma_fundamental_div_mod(-(x as int), n as int);
        let d = (x as int) / (n as int);
        assert((-(x as int)) / (n as int) == -d) by (nonlinear_arith)
            requires
                x == n * d,
                n > 0,
        ;
        assert(x - n * d == 0);
    }
}

/// The one shift count that fits both fields.
proof fn lemma_count(k: i64)
    requires
        0 <= k < 64,
    ensures
        (k as u32) % 64 == k,
{
}

/// The rewrite of `e` is exact in `env`: `!!x` only of a truth value, `x / x` and `x % x`
/// only where `x` is not zero, division by a power of two only of a non-negative value,
/// remainder by a power of two only of a non-negative value or a multiple.
pub open spec fn exact_at(e: ExprM, env: Env) -> bool {
    match e {
        ExprM::Unary { op: IrUnaryOp::LogNot, operand } => match *operand {
            ExprM::Unary { op: IrUnaryOp::LogNot, operand: x } => {
                let v = super::eval::eval(*x, env);
                v == 0 || v == 1
            },
            _ => true,
        },
        ExprM::Binary { op: IrBinOp::Div, left, right } => {
            let l = super::eval::eval(*left, env);
            &&& left == right ==> l != 0 || (env.undefined)(IrBinOp::Div, l) == 1
            &&& left != right && super::rules::log2_const(*right) is Some && *right
                != ExprM::Const(1) ==> l >= 0
        },
        ExprM::Binary { op: IrBinOp::Mod, left, right } => {
            let l = super::eval::eval(*left, env);
            &&& left == right ==> l != 0 || (env.undefined)(IrBinOp::Mod, l) == 0
            &&& left != right && super::rules::log2_const(*right) is Some ==> l >= 0 || (l as int)
                % (right->Const_0 as int) == 0
        },
        _ => true,
    }
}

proof fn lemma_identity_value(op: IrBinOp, l: ExprM, r: ExprM, env: Env)
    requires
        super::rules::identity_m(op, l, r) is Some,
        exact_at(crate::ir::bin_m(op, l, r), env),
    ensures
        super::eval::eval(super::rules::identity_m(op, l, r)->0, env) == super::eval::eval(
            crate::ir::bin_m(op, l, r),
            env,
        ),
{
    reveal_with_fuel(super::eval::eval, 3);
    let x = super::eval::eval(l, env);
    let y = super::eval::eval(r, env);
    lemma_bits(x, y);
    lemma_bits(y, x);
    lemma_shift_zero(x);
    crate::arith::lemma_wrap64(x as int);
    crate::arith::lemma_wrap64(y as int);
    crate::arith::lemma_wrap64(0);
    match op {
        IrBinOp::Mul => {
            assert(x * 0 == 0 && 0 * y == 0 && x * 1 == x && 1 * y == y) by (nonlinear_arith);
        },
        IrBinOp::Div => {
            if r == ExprM::Const(1) {
                assert((x as int) / 1int == x && (-(x as int)) / 1int == -(x as int))
                    by (nonlinear_arith);
            } else if x != 0 {
                assert(x > 0 ==> (x as int) / (x as int) == 1) by (nonlinear_arith);
                assert(x < 0 ==> (-(x as int)) / (-(x as int)) == 1) by (nonlinear_arith);
                crate::arith::lemma_wrap64(1);
            }
        },
        IrBinOp::Mod => {
            if x != 0 {
                assert(x > 0 ==> (x as int) / (x as int) == 1) by (nonlinear_arith);
                assert(x < 0 ==> (-(x as int)) / (-(x as int)) == 1) by (nonlinear_arith);
            }
        },
        IrBinOp::And => {
            if let ExprM::Binary { op: o, left: a, right: b } = r {
                lemma_bits(x, super::eval::eval(*a, env));
                lemma_bits(x, super::eval::eval(*b, env));
            }
            if let ExprM::Binary { op: o, left: a, right: b } = l {
                lemma_bits(y, super::eval::eval(*a, env));
                lemma_bits(y, super::eval::eval(*b, env));
            }
        },
        IrBinOp::Or => {
            if let ExprM::Binary { op: o, left: a, right: b } = r {
                lemma_bits(x, super::eval::eval(*a, env));
                lemma_bits(x, super::eval::eval(*b, env));
            }
            if let ExprM::Binary { op: o, left: a, right: b } = l {
                lemma_bits(y, super::eval::eval(*a, env));
                lemma_bits(y, super::eval::eval(*b, env));
            }
        },
        _ => {},
    }
}

proof fn lemma_strength_value(op: IrBinOp, l: ExprM, r: ExprM, env: Env)
    requires
        super::rules::strength_m(op, l, r) is Some,
        super::rules::identity_m(op, l, r) is None,
        exact_at(crate::ir::bin_m(op, l, r), env),
    ensures
        super::eval::eval(super::rules::strength_m(op, l, r)->0, env) == super::eval::eval(
            crate::ir::bin_m(op, l, r),
            env,
        ),
{
    reveal_with_fuel(super::eval::eval, 3);
    let x = super::eval::eval(l, env);
    let y = super::eval::eval(r, env);
    if super::rules::log2_const(r) is Some {
        let n = r->Const_0;
        let k = choose|k: nat| k < 63 && n == #[trigger] vstd::arithmetic::power2::pow2(k);
        super::rules::lemma_log2_of(n, k);
        lemma_count(k as i64);
        vstd::arithmetic::power2::lemma_pow2_pos(k);
        if op == IrBinOp::Mul {
            lemma_shl_is_mul(x, k as u32);
        } else if op == IrBinOp::Div {
            lemma_shr_is_div(x, n, k as u32);
            let q = crate::arith::div_trunc(x as int, n as int);
            assert(0 <= (x as int) / (n as int) <= x) by (nonlinear_arith)
                requires
                    x >= 0,
                    n > 0,
            ;
            crate::arith::lemma_wrap64(q);
        } else {
            lemma_mask_is_rem(x, n, k);
        }
    } else {
        let n = l->Const_0;
        let k = choose|k: nat| k < 63 && n == #[trigger] vstd::arithmetic::power2::pow2(k);
        super::rules::lemma_log2_of(n, k);
        lemma_count(k as i64);
        lemma_shl_is_mul(y, k as u32);
        assert(x * y == y * x) by (nonlinear_arith);
    }
}

proof fn lemma_reassociate_value(op: IrBinOp, l: ExprM, r: ExprM, env: Env)
    requires
        super::rules::reassociate_m(op, l, r) is Some,
    ensures
        super::eval::eval(super::rules::reassociate_m(op, l, r)->0, env) == super::eval::eval(
            crate::ir::bin_m(op, l, r),
            env,
        ),
{
    reveal_with_fuel(super::eval::eval, 3);
    let (x, c, d) = if super::rules::regroup_m(op, l, r) is Some {
        (super::eval::eval(*l->left, env), l->right->Const_0, r->Const_0)
    } else {
        (super::eval::eval(*r->left, env), l->Const_0, r->right->Const_0)
    };
    lemma_bits_assoc(x, c, d);
    lemma_wrap_operand(x as int, c + d);
    lemma_wrap_operand(x + c, d as int);
    lemma_wrap_operand(c as int, x + d);
    lemma_wrap_operand(x as int, c * d);
    lemma_wrap_operand(x * c, d as int);
    lemma_wrap_operand(c as int, x * d);
    assert((x * c) * d == x * (c * d)) by (nonlinear_arith);
    assert(c * (x * d) == x * (c * d)) by (nonlinear_arith);
}

proof fn lemma_complement_value(op: IrBinOp, l: ExprM, r: ExprM, env: Env)
    requires
        super::rules::complement_m(op, l, r) is Some,
    ensures
        super::eval::eval(super::rules::complement_m(op, l, r)->0, env) == super::eval::eval(
            crate::ir::bin_m(op, l, r),
            env,
        ),
{
    reveal_with_fuel(super::eval::eval, 3);
    lemma_bits(super::eval::eval(l, env), 0);
    lemma_bits(super::eval::eval(r, env), 0);
}

/// Algebraic simplification of a node keeps its value wherever [`exact_at`] holds.
pub proof fn law_rewrite_keeps_value(e: ExprM, env: Env)
    requires
        super::rules::rewrite_m(e) is Some,
        exact_at(e, env),
    ensures
        super::eval::eval(super::rules::rewrite_m(e)->0, env) == super::eval::eval(e, env),
{
    reveal_with_fuel(super::eval::eval, 4);
    match e {
        ExprM::Binary { op, left, right } => {
            let (l, r) = (*left, *right);
            assert(e == crate::ir::bin_m(op, l, r));
            if l is Const && r is Const && super::eval::binop_value(
                op,
                l->Const_0,
                r->Const_0,
            ) is Some {
            } else if super::rules::identity_m(op, l, r) is Some {
                lemma_identity_value(op, l, r, env);
            } else if super::rules::strength_m(op, l, r) is Some {
                lemma_strength_value(op, l, r, env);
            } else if super::rules::complement_m(op, l, r) is Some {
                lemma_complement_value(op, l, r, env);
            } else {
                lemma_reassociate_value(op, l, r, env);
            }
        },
        ExprM::Unary { op, operand } => {
            match *operand {
                ExprM::Unary { op: inner, operand: x } => {
                    let v = super::eval::eval(*x, env);
                    lemma_bits(v, 0);
                    lemma_wrap_operand(0, -v as int);
                    crate::arith::lemma_wrap64(v as int);
                },
                ExprM::Binary { op: b, left, right } => {
                    lemma_bits(super::eval::eval(*left, env), super::eval::eval(*right, env));
                },
                _ => {},
            }
        },
        _ => {},
    }
}

/// Peephole combining of a node keeps its value.
pub proof fn law_peephole_keeps_value(e: ExprM, env: Env)
    requires
        super::rules::peephole_m(e) is Some,
    ensures
        super::eval::eval(super::rules::peephole_m(e)->0, env) == super::eval::eval(e, env),
{
    reveal_with_fuel(super::eval::eval, 4);
    if let ExprM::Binary { op, left, right } = e {
        let (l, r) = (*left, *right);
        let x = super::eval::eval(l, env);
        let y = super::eval::eval(r, env);
        lemma_shift_one(x);
        crate::arith::lemma_wrap64(x + x);
        if let Some(a) = super::rules::negated(l) {
            let v = super::eval::eval(a, env);
            lemma_wrap_operand(-v as int, y as int);
        }
        if let Some(b) = super::rules::negated(r) {
            let v = super::eval::eval(b, env);
            lemma_wrap_operand(x as int, -v as int);
        }
        if op == IrBinOp::Shr && r is Const && l is Binary {
            let n = r->Const_0;
            if 0 < n < 64 {
                lemma_count(n);
                lemma_shift_mask(super::eval::eval(*l->left, env), n as u32);
            }
        }
    }
}

/// Code sinking on a node keeps its value.
pub proof fn law_sink_keeps_value(e: ExprM, env: Env)
    requires
        super::rules::sink_m(e) is Some,
    ensures
        super::eval::eval(super::rules::sink_m(e)->0, env) == super::eval::eval(e, env),
{
    reveal_with_fuel(super::eval::eval, 4);
}

/// Swapping the operands of a commutative operator keeps the value.
pub proof fn law_commutative_swap_keeps_value(op: IrBinOp, l: ExprM, r: ExprM, env: Env)
    requires
        super::rules::commutes(op),
    ensures
        super::eval::eval(crate::ir::bin_m(op, l, r), env) == super::eval::eval(
            crate::ir::bin_m(op, r, l),
            env,
        ),
{
    reveal_with_fuel(super::eval::eval, 2);
    let x = super::eval::eval(l, env);
    let y = super::eval::eval(r, env);
    lemma_bits(x, y);
    assert(x * y == y * x) by (nonlinear_arith);
}

} // verus!
