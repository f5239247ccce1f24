//! Laws: what number literals, delays and parameter expressions are worth.
use crate::parser::cst::{BinaryOp, SynExpr, UnaryOp};
use vstd::prelude::*;

verus! {

/// A character stands for a digit: the decimal digits, then the letters in either case.
pub open spec fn digit_is(c: char, d: nat) -> bool {
    if d < 10 {
        c as int == 48 + d
    } else {
        d < 16 && (c as int == 55 + d || c as int == 87 + d)
    }
}

/// A character stands for no digit of the base.
pub open spec fn no_digit(c: char, base: nat) -> bool {
    forall|d: nat| d < base ==> !#[trigger] digit_is(c, d)
}

/// What a list of digits is worth in a base, most significant first.
pub open spec fn worth(ds: Seq<nat>, base: nat) -> nat
    decreases ds.len(),
{
    if ds.len() == 0 {
        0
    } else {
        worth(ds.drop_last(), base) * base + ds.last()
    }
}

/// The characters are these digits of the base, one for one.
pub open spec fn digits_are(text: Seq<char>, ds: Seq<nat>, base: nat) -> bool {
    &&& text.len() == ds.len()
    &&& forall|i: int|
        0 <= i < ds.len() ==> digit_is(#[trigger] text[i], ds[i]) && ds[i] < base
}

/// A digit of unknown or floating bits.
pub open spec fn unknown(c: char) -> bool {
    c == 'x' || c == 'X' || c == 'z' || c == 'Z' || c == '?'
}

/// The characters are these digits, with underscores anywhere between them; where `loose`,
/// an unknown digit stands for zero.
pub open spec fn spelled(text: Seq<char>, ds: Seq<nat>, base: nat, loose: bool) -> bool
    decreases text.len(),
{
    if text.len() == 0 {
        ds.len() == 0
    } else if text.last() == '_' {
        spelled(text.drop_last(), ds, base, loose)
    } else {
        &&& ds.len() > 0
        &&& ds.last() < base
        &&& digit_is(text.last(), ds.last()) || loose && unknown(text.last()) && ds.last() == 0
        &&& spelled(text.drop_last(), ds.drop_last(), base, loose)
    }
}

/// The letter that introduces the digits of a base.
pub open spec fn letter_for(c: char, base: nat) -> bool {
    ||| base == 2 && (c == 'b' || c == 'B')
    ||| base == 8 && (c == 'o' || c == 'O')
    ||| base == 10 && (c == 'd' || c == 'D')
    ||| base == 16 && (c == 'h' || c == 'H')
}

/// A run of digits reads as what they are worth, and text with anything else in it does not
/// read.
pub proof fn law_digits(text: Seq<char>, ds: Seq<nat>, base: nat)
    requires
        2 <= base <= 16,
    ensures
        digits_are(text, ds, base) ==> crate::number::digits_value(text, base) == Some(
            worth(ds, base),
        ),
        (exists|i: int| 0 <= i < text.len() && no_digit(#[trigger] text[i], base))
            ==> crate::number::digits_value(text, base) is None,
    decreases text.len(),
{
    if digits_are(text, ds, base) && text.len() > 0 {
        assert(digits_are(text.drop_last(), ds.drop_last(), base));
        law_digits(text.drop_last(), ds.drop_last(), base);
        assert(digit_is(text[text.len() - 1], ds[ds.len() - 1]));
    }
    if exists|i: int| 0 <= i < text.len() && no_digit(#[trigger] text[i], base) {
        let i = choose|i: int| 0 <= i < text.len() && no_digit(#[trigger] text[i], base);
        if i < text.len() - 1 {
            assert(text.drop_last()[i] == text[i]);
            assert(no_digit(text.drop_last()[i], base));
            law_digits(text.drop_last(), ds, base);
        } else if crate::number::digit_value(text.last(), base) is Some {
            let d = crate::number::digit_value(text.last(), base).unwrap();
            assert(digit_is(text[i], d));
        }
    }
}

proof fn lemma_spelled(text: Seq<char>, ds: Seq<nat>, base: nat, loose: bool)
    requires
        spelled(text, ds, base, loose),
        2 <= base <= 16,
    ensures
        digits_are(crate::expr_const::cleaned(text, loose), ds, base),
    decreases text.len(),
{
    if text.len() > 0 {
        if text.last() == '_' {
            lemma_spelled(text.drop_last(), ds, base, loose);
        } else {
            lemma_spelled(text.drop_last(), ds.drop_last(), base, loose);
        }
    }
}

proof fn lemma_signed_digits(text: Seq<char>, ds: Seq<nat>, base: nat)
    requires
        digits_are(text, ds, base),
        2 <= base <= 16,
        ds.len() > 0,
    ensures
        crate::number::signed_value(text, base) == if worth(ds, base) <= i64::MAX {
            Some(worth(ds, base) as i64)
        } else {
            None
        },
{
    law_digits(text, ds, base);
    assert(digit_is(text[0], ds[0]));
}

proof fn lemma_tick(size: Seq<char>, rest: Seq<char>, i: int)
    requires
        0 <= i <= size.len(),
        forall|k: int| 0 <= k < size.len() ==> size[k] != '\'',
    ensures
        crate::expr_const::tick_from(size + seq!['\''] + rest, i) == size.len(),
    decreases size.len() - i,
{
    let s = size + seq!['\''] + rest;
    assert(s[size.len() as int] == '\'');
    if i < size.len() {
        assert(s[i] == size[i]);
        lemma_tick(size, rest, i + 1);
    }
}

/// A based literal, with any size before the tick, an optional `s`, its base letter in
/// either case, and its digits: it is worth what the digits are worth, and zero where that
/// does not fit. Underscores do not count, and unknown digits count as zero.
pub proof fn law_based_literal(
    size: Seq<char>,
    mark: Seq<char>,
    letter: char,
    text: Seq<char>,
    ds: Seq<nat>,
    base: nat,
)
    requires
        forall|k: int| 0 <= k < size.len() ==> size[k] != '\'',
        mark == Seq::<char>::empty() || mark == seq!['s'] || mark == seq!['S'],
        letter_for(letter, base),
        ds.len() > 0,
        spelled(text, ds, base, true),
    ensures
        crate::expr_const::number_value(size + seq!['\''] + (mark + seq![letter] + text))
            == if worth(ds, base) <= i64::MAX {
            worth(ds, base) as i64
        } else {
            0
        },
{
    let rest = mark + seq![letter] + text;
    let s = size + seq!['\''] + rest;
    lemma_tick(size, rest, 0);
    assert(s.skip(size.len() as int + 1) =~= rest);
    let body = seq![letter] + text;
    if mark.len() == 0 {
        assert(rest =~= body);
        assert(rest[0] == letter);
    } else {
        assert(rest[0] == mark[0]);
        assert(rest.skip(1) =~= body);
    }
    assert(body[0] == letter);
    assert(body.skip(1) =~= text);
    lemma_spelled(text, ds, base, true);
    lemma_signed_digits(crate::expr_const::cleaned(text, true), ds, base);
}

/// A literal without a base is decimal, and unknown digits are not read in it.
pub proof fn law_plain_literal(text: Seq<char>, ds: Seq<nat>)
    requires
        ds.len() > 0,
        spelled(text, ds, 10, false),
    ensures
        crate::expr_const::number_value(text) == if worth(ds, 10) <= i64::MAX {
            worth(ds, 10) as i64
        } else {
            0
        },
{
    lemma_spelled(text, ds, 10, false);
    lemma_signed_digits(crate::expr_const::cleaned(text, false), ds, 10);
    lemma_no_tick(text, ds, 0);
}

proof fn lemma_plain(text: Seq<char>, ds: Seq<nat>, k: int)
    requires
        spelled(text, ds, 10, false),
        0 <= k < text.len(),
    ensures
        text[k] == '_' || '0' <= text[k] <= '9',
    decreases text.len(),
{
    if k < text.len() - 1 {
        if text.last() == '_' {
            lemma_plain(text.drop_last(), ds, k);
        } else {
            lemma_plain(text.drop_last(), ds.drop_last(), k);
        }
    }
}

proof fn lemma_no_tick(text: Seq<char>, ds: Seq<nat>, i: int)
    requires
        spelled(text, ds, 10, false),
        0 <= i <= text.len(),
    ensures
        crate::expr_const::tick_from(text, i) == text.len(),
    decreases text.len() - i,
{
    if i < text.len() {
        lemma_plain(text, ds, i);
        lemma_no_tick(text, ds, i + 1);
    }
}

proof fn lemma_worth_concat(a: Seq<nat>, b: Seq<nat>)
    ensures
        worth(a + b, 10) == worth(a, 10) * vstd::arithmetic::power::pow(10, b.len()) + worth(b, 10),
        vstd::arithmetic::power::pow(10, b.len()) > 0,
    decreases b.len(),
{
    vstd::arithmetic::power::lemma_pow_positive(10, b.len());
    if b.len() == 0 {
        assert(a + b =~= a);
        vstd::arithmetic::power::lemma_pow0(10);
    } else {
        assert((a + b).drop_last() =~= a + b.drop_last());
        lemma_worth_concat(a, b.drop_last());
        reveal(vstd::arithmetic::power::pow);
        let (x, p, y) = (
            worth(a, 10) as int,
            vstd::arithmetic::power::pow(10, (b.len() - 1) as nat),
            worth(b.drop_last(), 10) as int,
        );
        assert(vstd::arithmetic::power::pow(10, b.len()) == 10 * p);
        assert((x * p + y) * 10 == x * (10 * p) + y * 10) by (nonlinear_arith);
    }
}

proof fn lemma_pow10(n: nat)
    ensures
        crate::delay_rational::pow10(n) == vstd::arithmetic::power::pow(10, n),
    decreases n,
{
    reveal(vstd::arithmetic::power::pow);
    if n > 0 {
        lemma_pow10((n - 1) as nat);
    }
}

proof fn lemma_point(a: Seq<char>, rest: Seq<char>, i: int)
    requires
        0 <= i <= a.len(),
        forall|k: int| 0 <= k < a.len() ==> a[k] != '.',
    ensures
        crate::delay_rational::point_from(a + seq!['.'] + rest, i) == a.len(),
    decreases a.len() - i,
{
    let s = a + seq!['.'] + rest;
    assert(s[a.len() as int] == '.');
    if i < a.len() {
        assert(s[i] == a[i]);
        lemma_point(a, rest, i + 1);
    }
}

proof fn lemma_ten_to_19()
    ensures
        vstd::arithmetic::power::pow(10, 19) == 10_000_000_000_000_000_000,
{
    lemma_pow10(19);
    reveal_with_fuel(crate::delay_rational::pow10, 20);
}

/// A delay with a point: what is behind the point counts as a fraction with a power of ten
/// below it. At most nineteen places are read.
pub proof fn law_fractional_delay(a: Seq<char>, da: Seq<nat>, b: Seq<char>, db: Seq<nat>)
    requires
        digits_are(a, da, 10),
        digits_are(b, db, 10),
        a.len() + b.len() > 0,
    ensures
        ({
            let r = crate::delay_rational::delay_value(a + seq!['.'] + b);
            let scale = vstd::arithmetic::power::pow(10, b.len());
            let top = worth(da, 10) * scale + worth(db, 10);
            if b.len() <= 19 && top <= u64::MAX {
                r.numer == top && r.denom == scale
            } else {
                r.numer == 0 && r.denom == 1
            }
        }),
{
    let s = a + seq!['.'] + b;
    assert forall|k: int| 0 <= k < a.len() implies a[k] != '.' by {
        assert(digit_is(a[k], da[k]));
    }
    lemma_point(a, b, 0);
    assert(s.take(a.len() as int) =~= a);
    assert(s.skip(a.len() as int + 1) =~= b);
    assert forall|i: int| 0 <= i < (da + db).len() implies digit_is(#[trigger] (a + b)[i], (da + db)[i])
        && (da + db)[i] < 10 by {
        if i < a.len() {
            assert(digit_is(a[i], da[i]));
        } else {
            assert(digit_is(b[i - a.len()], db[i - a.len()]));
        }
    }
    law_digits(a + b, da + db, 10);
    lemma_worth_concat(da, db);
    lemma_pow10(b.len());
    if b.len() <= 19 {
        vstd::arithmetic::power::lemma_pow_increases(10, b.len(), 19);
        lemma_ten_to_19();
    }
}

/// A delay without a point is its number, or nothing where that is negative.
pub proof fn law_whole_delay(s: Seq<char>)
    requires
        forall|k: int| 0 <= k < s.len() ==> s[k] != '.',
    ensures
        ({
            let r = crate::delay_rational::delay_value(s);
            let v = crate::expr_const::number_value(s);
            r.denom == 1 && (v >= 0 ==> r.numer == v) && (v < 0 ==> r.numer == 0)
        }),
{
    lemma_no_point(s, 0);
}

proof fn lemma_no_point(s: Seq<char>, i: int)
    requires
        forall|k: int| 0 <= k < s.len() ==> s[k] != '.',
        0 <= i <= s.len(),
    ensures
        crate::delay_rational::point_from(s, i) == s.len(),
    decreases s.len() - i,
{
    if i < s.len() {
        lemma_no_point(s, i + 1);
    }
}

/// A parameter expression has a value if and only if all it needs is known: names by the
/// known parameters, operators by both of their operands, a conditional by its condition and
/// the arm that this chooses, which gives its value.
pub proof fn law_parameter_expression(
    known: Map<Seq<char>, i64>,
    name: Seq<char>,
    c: SynExpr,
    t: SynExpr,
    f: SynExpr,
    op: BinaryOp,
    un: UnaryOp,
)
    ensures
        ({
            let value = |e: SynExpr| crate::expr_const::param_value(e, known);
            let cond = SynExpr::Ternary {
                cond: Box::new(c),
                then_expr: Box::new(t),
                else_expr: Box::new(f),
            };
            let two = SynExpr::Binary { op, left: Box::new(t), right: Box::new(f) };
            let one = SynExpr::Unary { op: un, operand: Box::new(t) };
            &&& known.contains_key(name) ==> value(SynExpr::Ident(name)) == Some(known[name])
            &&& !known.contains_key(name) ==> value(SynExpr::Ident(name)) is None
            &&& value(c) is None ==> value(cond) is None
            &&& value(c) == Some(0i64) ==> value(cond) == value(f)
            &&& (value(c) is Some && value(c) != Some(0i64)) ==> value(cond) == value(t)
            &&& value(two) is Some <==> value(t) is Some && value(f) is Some
            &&& value(two) is Some ==> value(two) == Some(
                crate::operator_laws::par(op, value(t).unwrap(), value(f).unwrap()),
            )
            &&& value(one) is Some <==> value(t) is Some
            &&& value(one) is Some ==> value(one) == Some(
                crate::expr_const::param_unop(un, value(t).unwrap()),
            )
        }),
{
}

/// `$clog2` of a value is the least number of bits that tell so many states apart, and
/// `$signed` takes the low 32 bits of its operand as a signed number.
pub proof fn law_parameter_functions(known: Map<Seq<char>, i64>, x: SynExpr, v: i64, n: nat, k: u32)
    requires
        crate::expr_const::param_value(x, known) == Some(v),
        k < 64,
    ensures
        ({
            let states = crate::expr_const::param_value(SynExpr::Clog2(Box::new(x)), known);
            let signed = crate::expr_const::param_value(SynExpr::Signed(Box::new(x)), known);
            &&& states is Some && 0 <= states.unwrap() <= 63
            &&& v <= 1 ==> states.unwrap() == 0
            &&& v > 1 ==> (states.unwrap() <= n <==> v <= vstd::arithmetic::power2::pow2(n))
            &&& signed is Some
            &&& crate::operator_laws::bit(signed.unwrap(), k) == crate::operator_laws::bit(
                v,
                if k < 32 {
                    k
                } else {
                    31
                },
            )
        }),
{
    crate::expr_const::law_clog2(v as int);
    let c = crate::expr_const::clog2(v as int);
    if v > 1 {
        if c > 63 {
            if c > 64 {
                vstd::arithmetic::power2::lemma_pow2_strictly_increases(63, (c - 1) as nat);
            }
            vstd::arithmetic::power2::lemma2_to64();
            vstd::arithmetic::power2::lemma2_to64_rest();
        }
        if c < n {
            vstd::arithmetic::power2::lemma_pow2_strictly_increases(c as nat, n);
        } else if n < c - 1 {
            vstd::arithmetic::power2::lemma_pow2_strictly_increases(n, (c - 1) as nat);
        }
    }
    crate::operator_laws::law_sign_extension(v, 32, k);
}

/// In a table of parameters the first entry of a name counts.
pub proof fn law_first_entry(s: Seq<(String, i64)>, name: Seq<char>, k: int)
    ensures
        0 <= k < s.len() && s[k].0@ == name && (forall|j: int|
            0 <= j < k ==> (#[trigger] s[j]).0@ != name) ==> crate::expr_const::table(
            s,
        ).contains_key(name) && crate::expr_const::table(s)[name] == s[k].1,
        (forall|j: int| 0 <= j < s.len() ==> (#[trigger] s[j]).0@ != name)
            ==> !crate::expr_const::table(s).contains_key(name),
    decreases s.len(),
{
    if s.len() > 0 {
        let front = s.drop_last();
        assert forall|j: int| 0 <= j < front.len() implies front[j] == s[j] by {}
        assert(s.last() == s[s.len() - 1]);
        law_first_entry(front, name, k);
    }
}

/// A sign in front of digits: minus gives the opposite, and plus changes nothing.
pub proof fn law_signed_numeral(text: Seq<char>, ds: Seq<nat>, base: nat)
    requires
        digits_are(text, ds, base),
        2 <= base <= 16,
        ds.len() > 0,
    ensures
        worth(ds, base) <= 0x8000_0000_0000_0000 ==> crate::number::signed_value(
            seq!['-'] + text,
            base,
        ) == Some((0 - worth(ds, base)) as i64),
        worth(ds, base) > 0x8000_0000_0000_0000 ==> crate::number::signed_value(
            seq!['-'] + text,
            base,
        ) is None,
        crate::number::signed_value(seq!['+'] + text, base) == crate::number::signed_value(
            text,
            base,
        ),
        worth(ds, 10) <= u64::MAX && base == 10 ==> crate::number::unsigned_value(text, u64::MAX)
            == Some(worth(ds, 10) as u64) && crate::number::unsigned_value(
            seq!['+'] + text,
            u64::MAX,
        ) == Some(worth(ds, 10) as u64),
{
    law_digits(text, ds, base);
    assert(digit_is(text[0], ds[0]));
    assert((seq!['-'] + text).skip(1) =~= text);
    assert((seq!['+'] + text).skip(1) =~= text);
}

} // verus!
