//! Exact delays.
use crate::expr_const::parse_verilog_number;
use crate::number::parse_digits;
use crate::text::chars_of;
use vstd::prelude::*;

verus! {

/// An exact delay, `numer / denom` time units.
#[derive(Debug, Clone, Copy, PartialEq, Eq, Structural)]
pub struct DelayRational {
    pub numer: u64,
    pub denom: u64,
}

/// Position of the first point at or after `i`, or the length.
pub open spec fn point_from(s: Seq<char>, i: int) -> int
    decreases s.len() - i,
{
    if i >= s.len() {
        s.len() as int
    } else if s[i] == '.' {
        i
    } else {
        point_from(s, i + 1)
    }
}

/// Ten to the power `n`.
pub open spec fn pow10(n: nat) -> nat
    decreases n,
{
    if n == 0 {
        1
    } else {
        10 * pow10((n - 1) as nat)
    }
}

/// The delay that a literal stands for: a number, or decimal digits with a point in them,
/// whose digits together fit 64 bits. Anything else is no delay.
pub open spec fn delay_value(s: Seq<char>) -> DelayRational {
    let p = point_from(s, 0);
    if p >= s.len() {
        let v = crate::expr_const::number_value(s);
        DelayRational {
            numer: if v < 0 {
                0
            } else {
                v as u64
            },
            denom: 1,
        }
    } else {
        let places = (s.len() - p - 1) as nat;
        match crate::number::digits_within(s.take(p) + s.skip(p + 1), 10, u64::MAX) {
            Some(v) => if places <= 19 {
                DelayRational { numer: v, denom: pow10(places) as u64 }
            } else {
                DelayRational { numer: 0, denom: 1 }
            },
            None => DelayRational { numer: 0, denom: 1 },
        }
    }
}

proof fn lemma_pow10(n: nat)
    requires
        n <= 19,
    ensures
        1 <= pow10(n) <= 10_000_000_000_000_000_000,
{
    reveal_with_fuel(pow10, 20);
}

impl DelayRational {
    /// No delay.
    pub fn zero() -> (r: Self)
        ensures
            r == (DelayRational { numer: 0, denom: 1 }),
    {
        DelayRational { numer: 0, denom: 1 }
    }

    /// Reads a delay literal.
    pub fn from_delay_lexeme(s: &str) -> (r: Self)
        ensures
            r == delay_value(s@),
    {
        let chars = chars_of(s);
        let mut p: usize = 0;
        while p < chars.len() && chars[p] != '.'
            invariant
                p <= chars@.len(),
                point_from(chars@, p as int) == point_from(chars@, 0),
            decreases chars@.len() - p,
        {
            p = p + 1;
        }
        if p >= chars.len() {
            let v = parse_verilog_number(s);
            return DelayRational {
                numer: if v < 0 {
                    0
                } else {
                    v as u64
                },
                denom: 1,
            };
        }
        let places: usize = chars.len() - p - 1;
        let ghost text = chars@;
        let mut digits = chars;
        let _ = digits.remove(p);
        assert(digits@ =~= text.take(p as int) + text.skip(p + 1));
        assert(digits@.skip(0) == digits@);
        if places > 19 {
            return DelayRational::zero();
        }
        match parse_digits(digits.as_slice(), 0, 10, u64::MAX) {
            Some(v) => {
                let mut denom: u64 = 1;
                let mut i: usize = 0;
                while i < places
                    invariant
                        i <= places <= 19,
                        denom == pow10(i as nat),
                    decreases places - i,
                {
                    proof {
                        lemma_pow10((i + 1) as nat);
                    }
                    denom = denom * 10;
                    i = i + 1;
                }
                DelayRational { numer: v, denom }
            },
            None => DelayRational::zero(),
        }
    }
}

} // verus!
