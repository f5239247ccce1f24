//! Fixed-width integer helpers.
use vstd::prelude::*;

verus! {

/// Quotient of `l / r` rounded toward zero.
pub open spec fn div_trunc(l: int, r: int) -> int {
    if l >= 0 && r > 0 {
        l / r
    } else if l < 0 && r < 0 {
        (-l) / (-r)
    } else if l < 0 {
        -((-l) / r)
    } else {
        -(l / (-r))
    }
}

/// Remainder of `l / r`, with the sign of `l`.
pub open spec fn rem_trunc(l: int, r: int) -> int {
    l - r * div_trunc(l, r)
}

/// The 64-bit value congruent to `x` modulo 2^64.
pub open spec fn wrap64(x: int) -> i64 {
    vstd::wrapping::i64_specs::signed_crop(x)
}

/// A value in range is its own wrapped value, and wrapping reaches one period further.
pub proof fn lemma_wrap64(x: int)
    ensures
        i64::MIN <= x <= i64::MAX ==> wrap64(x) == x,
        i64::MAX < x <= u64::MAX ==> wrap64(x) == x - 0x1_0000_0000_0000_0000,
        -0x1_0000_0000_0000_0000 < x < i64::MIN ==> wrap64(x) == x + 0x1_0000_0000_0000_0000,
{
}

/// `v` with its low `width` bits read as a two's-complement number; a width of 0 or of
/// 64 and more leaves `v` as it is.
pub open spec fn sign_extend(v: i64, width: u32) -> i64 {
    if width == 0 || width >= 64 {
        v
    } else {
        (v << ((64 - width) as u32)) >> ((64 - width) as u32)
    }
}

pub fn sign_extend_i64(v: i64, width: u32) -> (r: i64)
    ensures
        r == sign_extend(v, width),
{
    if width == 0 || width >= 64 {
        v
    } else {
        let s: u32 = 64 - width;
        v.wrapping_shl(s).wrapping_shr(s)
    }
}

/// Arithmetic right shift of a `width`-bit value; shifting by 64 or more leaves only the
/// sign.
pub open spec fn arith_shr(v: i64, shift: u32, width: u32) -> i64 {
    sign_extend(v, width) >> (if shift < 63 {
        shift
    } else {
        63
    })
}

pub fn arith_shr_i64(v: i64, shift: u32, width: u32) -> (r: i64)
    ensures
        r == arith_shr(v, shift, width),
{
    let s: u32 = if shift < 63 {
        shift
    } else {
        63
    };
    sign_extend_i64(v, width).wrapping_shr(s)
}

proof fn lemma_abs_div(x: int, d: int)
    by (nonlinear_arith)
    requires
        x >= 0,
        d > 0,
    ensures
        0 <= x / d <= x,
        x - d * (x / d) == x % d,
{
}

/// Quotient rounded toward zero, wrapping in the one case that leaves the range.
pub fn div_wrapping(l: i64, r: i64) -> (q: i64)
    requires
        r != 0,
    ensures
        q == if l == i64::MIN && r == -1 {
            i64::MIN as int
        } else {
            div_trunc(l as int, r as int)
        },
{
    proof {
        if l == 0 {
            assert(0int / (r as int) == 0) by (nonlinear_arith) requires r != 0;
            assert(0int / (-r as int) == 0) by (nonlinear_arith) requires r != 0;
        }
        if l == i64::MIN && r == -1 {
            assert(0x8000_0000_0000_0000int / 1int == 0x8000_0000_0000_0000int);
        }
        if l >= 0 && r > 0 {
            lemma_abs_div(l as int, r as int);
        } else if l < 0 && r < 0 {
            lemma_abs_div(-l as int, -r as int);
            if r != -1 {
                assert((-l) / (-r) <= i64::MAX) by (nonlinear_arith)
                    requires
                        l < 0,
                        r < -1,
                        -l <= 0x8000_0000_0000_0000,
                ;
            }
        } else if l < 0 {
            lemma_abs_div(-l as int, r as int);
        } else {
            lemma_abs_div(l as int, -r as int);
        }
    }
    match l.checked_div(r) {
        Some(q) => q,
        None => l,
    }
}

/// Remainder with the sign of the dividend.
pub fn rem_wrapping(l: i64, r: i64) -> (m: i64)
    requires
        r != 0,
    ensures
        m == rem_trunc(l as int, r as int),
{
    proof {
        let (x, d) = (l as int, r as int);
        if x >= 0 && d > 0 {
            lemma_abs_div(x, d);
        } else if x < 0 && d < 0 {
            lemma_abs_div(-x, -d);
            assert(x - d * ((-x) / (-d)) == -(-x - (-d) * ((-x) / (-d)))) by (nonlinear_arith);
        } else if x < 0 {
            lemma_abs_div(-x, d);
            assert(x - d * (-((-x) / d)) == -(-x - d * ((-x) / d))) by (nonlinear_arith);
        } else {
            lemma_abs_div(x, -d);
            assert(x - d * (-(x / (-d))) == x - (-d) * (x / (-d))) by (nonlinear_arith);
        }
        if x == 0 {
            assert(0int / d == 0) by (nonlinear_arith) requires d != 0;
        }
    }
    match l.checked_rem(r) {
        Some(m) => m,
        None => 0,
    }
}

} // verus!
