//! Reading and writing integers as text.
use crate::text;
use vstd::prelude::*;

verus! {

/// Value of a character as a digit in bases up to thirty-six.
pub open spec fn digit_value(c: char, radix: nat) -> Option<nat> {
    let v: int = if '0' <= c && c <= '9' {
        c as int - '0' as int
    } else if 'a' <= c && c <= 'z' {
        c as int - 'a' as int + 10
    } else if 'A' <= c && c <= 'Z' {
        c as int - 'A' as int + 10
    } else {
        36
    };
    if v < radix && v < 36 {
        Some(v as nat)
    } else {
        None
    }
}

pub fn digit_of(c: char, radix: u32) -> (r: Option<u32>)
    ensures
        match r {
            Some(v) => digit_value(c, radix as nat) == Some(v as nat),
            None => digit_value(c, radix as nat) is None,
        },
{
    let v: u32 = if '0' <= c && c <= '9' {
        c as u32 - '0' as u32
    } else if 'a' <= c && c <= 'z' {
        c as u32 - 'a' as u32 + 10
    } else if 'A' <= c && c <= 'Z' {
        c as u32 - 'A' as u32 + 10
    } else {
        36
    };
    if v < radix && v < 36 {
        Some(v)
    } else {
        None
    }
}

/// Value of a run of digits, most significant first. The empty run has the value zero;
/// a run with a character that is no digit has none.
pub open spec fn digits_value(s: Seq<char>, radix: nat) -> Option<nat>
    decreases s.len(),
{
    if s.len() == 0 {
        Some(0)
    } else {
        match (digits_value(s.drop_last(), radix), digit_value(s.last(), radix)) {
            (Some(v), Some(d)) => Some(v * radix + d),
            _ => None,
        }
    }
}

/// A longer run of digits has no smaller value.
pub proof fn lemma_digits_value_prefix(s: Seq<char>, k: int, radix: nat)
    requires
        0 <= k <= s.len(),
        radix >= 1,
        digits_value(s, radix) is Some,
    ensures
        digits_value(s.take(k), radix) is Some,
        digits_value(s.take(k), radix).unwrap() <= digits_value(s, radix).unwrap(),
    decreases s.len(),
{
    if k == s.len() {
        assert(s.take(k) == s);
    } else {
        lemma_digits_value_prefix(s.drop_last(), k, radix);
        assert(s.drop_last().take(k) == s.take(k));
        let v = digits_value(s.drop_last(), radix).unwrap();
        assert(v <= v * radix) by (nonlinear_arith)
            requires
                radix >= 1,
        ;
    }
}

/// Reads `chars[lo..]` as digits. The result is `None` when the run is empty, holds
/// something else, or stands for more than `limit`.
pub fn parse_digits(chars: &[char], lo: usize, radix: u32, limit: u64) -> (r: Option<u64>)
    requires
        lo <= chars@.len(),
        1 <= radix <= 36,
    ensures
        r == digits_within(chars@.skip(lo as int), radix as nat, limit),
{
    let ghost s = chars@.skip(lo as int);
    if lo == chars.len() {
        return None;
    }
    let mut acc: u64 = 0;
    let mut i: usize = lo;
    while i < chars.len()
        invariant
            lo <= i <= chars@.len(),
            1 <= radix <= 36,
            s == chars@.skip(lo as int),
            digits_value(s.take(i - lo), radix as nat) == Some(acc as nat),
            acc <= limit,
            s.len() > 0,
        decreases chars@.len() - i,
    {
        assert(s.take(i - lo + 1).drop_last() == s.take(i - lo));
        assert(s.take(i - lo + 1).last() == chars@[i as int]);
        match digit_of(chars[i], radix) {
            None => {
                proof {
                    if digits_value(s, radix as nat) is Some {
                        lemma_digits_value_prefix(s, i - lo + 1, radix as nat);
                    }
                }
                return None;
            },
            Some(d) => {
                assert((acc as u128) * (radix as u128) + (d as u128) <= 0x1000_0000_0000_0000_0000_0000u128)
                    by (nonlinear_arith)
                    requires
                        acc <= u64::MAX,
                        radix <= 36,
                        d < 36,
                ;
                assert((acc as u128) * (radix as u128) >= 0) by (nonlinear_arith);
                let next: u128 = (acc as u128) * (radix as u128) + (d as u128);
                assert(next == acc as nat * radix as nat + d as nat);
                if next > limit as u128 {
                    proof {
                        if digits_value(s, radix as nat) is Some {
                            lemma_digits_value_prefix(s, i - lo + 1, radix as nat);
                        }
                    }
                    return None;
                }
                acc = next as u64;
                i = i + 1;
            },
        }
    }
    assert(s.take(i - lo) == s);
    Some(acc)
}

/// The value of a nonempty run of digits, where it is at most `limit`.
pub open spec fn digits_within(s: Seq<char>, radix: nat, limit: u64) -> Option<u64> {
    match digits_value(s, radix) {
        Some(v) => if s.len() > 0 && v <= limit {
            Some(v as u64)
        } else {
            None
        },
        None => None,
    }
}

/// Value of a numeral with an optional sign, where an `i64` can hold it.
pub open spec fn signed_value(s: Seq<char>, radix: nat) -> Option<i64> {
    if s.len() > 0 && s[0] == '-' {
        match digits_within(s.skip(1), radix, 0x8000_0000_0000_0000u64) {
            Some(v) => Some((-(v as int)) as i64),
            None => None,
        }
    } else {
        let body = if s.len() > 0 && s[0] == '+' {
            s.skip(1)
        } else {
            s
        };
        match digits_within(body, radix, 0x7FFF_FFFF_FFFF_FFFFu64) {
            Some(v) => Some(v as i64),
            None => None,
        }
    }
}

/// Reads a signed numeral.
pub fn parse_signed(chars: &[char], radix: u32) -> (r: Option<i64>)
    requires
        1 <= radix <= 36,
    ensures
        r == signed_value(chars@, radix as nat),
{
    if chars.len() > 0 && chars[0] == '-' {
        match parse_digits(chars, 1, radix, 0x8000_0000_0000_0000u64) {
            Some(v) => Some((-(v as i128)) as i64),
            None => None,
        }
    } else if chars.len() > 0 && chars[0] == '+' {
        match parse_digits(chars, 1, radix, 0x7FFF_FFFF_FFFF_FFFFu64) {
            Some(v) => Some(v as i64),
            None => None,
        }
    } else {
        assert(chars@.skip(0) == chars@);
        match parse_digits(chars, 0, radix, 0x7FFF_FFFF_FFFF_FFFFu64) {
            Some(v) => Some(v as i64),
            None => None,
        }
    }
}

/// Value of an unsigned decimal numeral with an optional plus sign, up to `limit`.
pub open spec fn unsigned_value(s: Seq<char>, limit: u64) -> Option<u64> {
    digits_within(
        if s.len() > 0 && s[0] == '+' {
            s.skip(1)
        } else {
            s
        },
        10,
        limit,
    )
}

/// Reads an unsigned decimal numeral.
pub fn parse_unsigned(text: &str, limit: u64) -> (r: Option<u64>)
    ensures
        r == unsigned_value(text@, limit),
{
    let chars = text::chars_of(text);
    if chars.len() > 0 && chars[0] == '+' {
        parse_digits(chars.as_slice(), 1, 10, limit)
    } else {
        assert(chars@.skip(0) == chars@);
        parse_digits(chars.as_slice(), 0, 10, limit)
    }
}

/// The decimal digit that stands for `d`.
pub open spec fn digit_char(d: nat) -> char {
    (('0' as nat + d) as u32) as char
}

/// Decimal digits of a natural number, without leading zeros.
pub open spec fn decimal_digits(n: nat) -> Seq<char>
    decreases n,
{
    if n < 10 {
        seq![digit_char(n)]
    } else {
        decimal_digits(n / 10).push(digit_char(n % 10))
    }
}

/// Decimal text of an integer.
pub open spec fn decimal(n: int) -> Seq<char> {
    if n < 0 {
        seq!['-'] + decimal_digits((-n) as nat)
    } else {
        decimal_digits(n as nat)
    }
}

fn digit_to_char(d: u64) -> (r: char)
    requires
        d < 10,
    ensures
        r == digit_char(d as nat),
{
    if d == 0 {
        '0'
    } else if d == 1 {
        '1'
    } else if d == 2 {
        '2'
    } else if d == 3 {
        '3'
    } else if d == 4 {
        '4'
    } else if d == 5 {
        '5'
    } else if d == 6 {
        '6'
    } else if d == 7 {
        '7'
    } else if d == 8 {
        '8'
    } else {
        '9'
    }
}

/// Appends the decimal digits of `n`.
pub fn push_decimal(out: &mut String, n: u64)
    ensures
        final(out)@ == old(out)@ + decimal_digits(n as nat),
    decreases n,
{
    if n >= 10 {
        push_decimal(out, n / 10);
    }
    let ghost before = out@;
    text::push_char(out, digit_to_char(n % 10));
    proof {
        if n >= 10 {
            assert(before == old(out)@ + decimal_digits((n / 10) as nat));
        } else {
            assert(before == old(out)@);
        }
        assert(out@ =~= old(out)@ + decimal_digits(n as nat));
    }
}

/// Decimal text of an unsigned integer.
pub fn u64_text(n: u64) -> (r: String)
    ensures
        r@ == decimal_digits(n as nat),
{
    let mut out = String::new();
    push_decimal(&mut out, n);
    assert(out@ =~= decimal_digits(n as nat));
    out
}

/// Decimal text of a signed integer.
pub fn i64_text(n: i64) -> (r: String)
    ensures
        r@ == decimal(n as int),
{
    let mut out = String::new();
    if n < 0 {
        text::push_char(&mut out, '-');
        assert(out@ =~= seq!['-']);
        push_decimal(&mut out, (-(n as i128)) as u64);
    } else {
        push_decimal(&mut out, n as u64);
        assert(out@ =~= decimal(n as int));
    }
    out
}

proof fn lemma_digit_char(d: nat)
    requires
        d < 10,
    ensures
        digit_value(digit_char(d), 10) == Some(d),
        digit_char(d) != '-',
        digit_char(d) != '+',
        digit_char(d) != '_',
        digit_char(d) != '\'',
{
}

/// Decimal digits stand for the number they were written from.
pub proof fn law_decimal_digits_value(n: nat)
    ensures
        digits_value(decimal_digits(n), 10) == Some(n),
        decimal_digits(n).len() >= 1,
        forall|i: int|
            0 <= i < decimal_digits(n).len() ==> '0' <= #[trigger] decimal_digits(n)[i] <= '9',
    decreases n,
{
    reveal_with_fuel(digits_value, 2);
    if n < 10 {
        lemma_digit_char(n);
        let s = seq![digit_char(n)];
        assert(s.drop_last() =~= Seq::empty());
        assert(digits_value(s.drop_last(), 10) == Some(0nat));
    } else {
        law_decimal_digits_value(n / 10);
        lemma_digit_char(n % 10);
        let s = decimal_digits(n / 10).push(digit_char(n % 10));
        assert(s.drop_last() =~= decimal_digits(n / 10));
    }
}

/// Reading the decimal text of an `i64` gives the number back.
pub proof fn law_decimal_round_trip(n: i64)
    ensures
        signed_value(decimal(n as int), 10) == Some(n),
{
    if n < 0 {
        let m = (-(n as int)) as nat;
        law_decimal_digits_value(m);
        assert(decimal(n as int).skip(1) =~= decimal_digits(m));
    } else {
        law_decimal_digits_value(n as nat);
        assert(decimal(n as int)[0] != '-' && decimal(n as int)[0] != '+');
    }
}

/// The upper-case digit that stands for `d` in bases up to sixteen.
pub open spec fn radix_char(d: nat) -> char {
    if d < 10 {
        digit_char(d)
    } else {
        (('A' as nat + (d - 10) as nat) as u32) as char
    }
}

/// Digits of a natural number in a base, without leading zeros.
pub open spec fn radix_digits(n: nat, radix: nat) -> Seq<char>
    decreases n,
{
    if n < radix || radix < 2 {
        seq![radix_char(n)]
    } else {
        proof {
            assert(n / radix < n) by (nonlinear_arith)
                requires
                    n >= radix,
                    radix >= 2,
            ;
        }
        radix_digits(n / radix, radix).push(radix_char(n % radix))
    }
}

fn radix_to_char(d: u64) -> (r: char)
    requires
        d < 16,
    ensures
        r == radix_char(d as nat),
{
    if d < 10 {
        digit_to_char(d)
    } else if d == 10 {
        'A'
    } else if d == 11 {
        'B'
    } else if d == 12 {
        'C'
    } else if d == 13 {
        'D'
    } else if d == 14 {
        'E'
    } else {
        'F'
    }
}

/// Appends the digits of `n` in a base of two to sixteen.
pub fn push_radix(out: &mut String, n: u64, radix: u64)
    requires
        2 <= radix <= 16,
    ensures
        final(out)@ == old(out)@ + radix_digits(n as nat, radix as nat),
    decreases n,
{
    if n >= radix {
        assert(n / radix < n) by (nonlinear_arith)
            requires
                n >= radix,
                radix >= 2,
        ;
        push_radix(out, n / radix, radix);
    }
    let ghost before = out@;
    assert(n % radix < radix);
    text::push_char(out, radix_to_char(n % radix));
    proof {
        if n < radix {
            assert(n % radix == n) by (nonlinear_arith)
                requires
                    n < radix,
            ;
            assert(before == old(out)@);
        }
        assert(out@ =~= old(out)@ + radix_digits(n as nat, radix as nat));
    }
}

/// Text of a number in a base of two to sixteen.
pub fn radix_text(n: u64, radix: u64) -> (r: String)
    requires
        2 <= radix <= 16,
    ensures
        r@ == radix_digits(n as nat, radix as nat),
{
    let mut out = String::new();
    push_radix(&mut out, n, radix);
    assert(out@ =~= radix_digits(n as nat, radix as nat));
    out
}

/// Digits in a base stand for the number they were written from.
pub proof fn law_radix_digits_value(n: nat, radix: nat)
    requires
        2 <= radix <= 16,
    ensures
        digits_value(radix_digits(n, radix), radix) == Some(n),
    decreases n,
{
    reveal_with_fuel(digits_value, 2);
    if n < radix {
        let s = seq![radix_char(n)];
        assert(s.drop_last() =~= Seq::empty());
        assert(digits_value(s.drop_last(), radix) == Some(0nat));
        assert(digit_value(radix_char(n), radix) == Some(n));
        assert(0nat * radix + n == n);
    } else {
        assert(n / radix < n && n == (n / radix) * radix + n % radix && n % radix < radix)
            by (nonlinear_arith)
            requires
                n >= radix,
                radix >= 2,
        ;
        law_radix_digits_value(n / radix, radix);
        let s = radix_digits(n / radix, radix).push(radix_char(n % radix));
        assert(s.drop_last() =~= radix_digits(n / radix, radix));
        assert(digit_value(radix_char(n % radix), radix) == Some((n % radix) as nat));
    }
}

/// `s` with zeros in front up to a length.
pub open spec fn zero_padded(s: Seq<char>, width: nat) -> Seq<char> {
    if s.len() >= width {
        s
    } else {
        Seq::new((width - s.len()) as nat, |i: int| '0') + s
    }
}

/// A text with zeros in front up to a length.
pub fn pad_zeros(s: &str, width: usize) -> (r: String)
    ensures
        r@ == zero_padded(s@, width as nat),
{
    let n = text::chars_of(s).len();
    if n >= width {
        return s.to_owned();
    }
    let mut out = String::new();
    let mut i: usize = 0;
    assert(out@ =~= Seq::new(0, |i: int| '0'));
    while i < width - n
        invariant
            n < width,
            i <= width - n,
            out@ == Seq::new(i as nat, |i: int| '0'),
        decreases width - n - i,
    {
        text::push_char(&mut out, '0');
        assert(out@ =~= Seq::new((i + 1) as nat, |i: int| '0'));
        i = i + 1;
    }
    text::concat_str(out.as_str(), s)
}

} // verus!
