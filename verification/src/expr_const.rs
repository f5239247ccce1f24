//! Constant folding for parameters, local parameters and generate bounds.
use crate::arith::{arith_shr_i64, div_wrapping, rem_wrapping, sign_extend_i64};
use crate::number::parse_signed;
use crate::parser::cst::{BinaryOp, Expr, SynExpr, UnaryOp};
use crate::text::{chars_of, str_eq};
use vstd::prelude::*;

verus! {

/// `$clog2(n)`: the number of bits that tell `n` states apart.
pub open spec fn clog2(n: int) -> int
    decreases n,
{
    if n <= 1 {
        0
    } else {
        1 + clog2((n + 1) / 2)
    }
}

/// `$clog2(n)` is the least exponent whose power of two reaches `n`, for `n` of at least
/// one; for smaller `n` it is zero.
pub proof fn law_clog2(n: int)
    ensures
        clog2(n) >= 0,
        n <= 1 ==> clog2(n) == 0,
        n >= 1 ==> n <= vstd::arithmetic::power2::pow2(clog2(n) as nat),
        n > 1 ==> clog2(n) >= 1 && vstd::arithmetic::power2::pow2((clog2(n) - 1) as nat) < n,
    decreases n,
{
    if n > 1 {
        let h = (n + 1) / 2;
        law_clog2(h);
        let k = clog2(h) as nat;
        vstd::arithmetic::power2::lemma_pow2_unfold((k + 1) as nat);
        if k > 0 {
            vstd::arithmetic::power2::lemma_pow2_unfold(k);
        }
    }
    vstd::arithmetic::power2::lemma2_to64();
}

proof fn lemma_clog2_small(n: int, k: nat)
    requires
        n <= vstd::arithmetic::power2::pow2(k),
    ensures
        0 <= clog2(n) <= k,
    decreases k,
{
    if n > 1 {
        if k == 0 {
            vstd::arithmetic::power2::lemma2_to64();
        } else {
            vstd::arithmetic::power2::lemma_pow2_unfold(k);
            lemma_clog2_small((n + 1) / 2, (k - 1) as nat);
        }
    }
}

pub fn verilog_clog2(n: i64) -> (r: i64)
    ensures
        r == clog2(n as int),
    decreases n,
{
    if n <= 1 {
        0
    } else {
        let half: i64 = n / 2 + n % 2;
        assert(half == (n + 1) / 2);
        proof {
            vstd::arithmetic::power2::lemma2_to64_rest();
            lemma_clog2_small(half as int, 63);
        }
        1 + verilog_clog2(half)
    }
}

/// Position of the first tick at or after `i`, or the length.
pub open spec fn tick_from(s: Seq<char>, i: int) -> int
    decreases s.len() - i,
{
    if i >= s.len() {
        s.len() as int
    } else if s[i] == '\'' {
        i
    } else {
        tick_from(s, i + 1)
    }
}

/// A wildcard digit counts as zero.
pub open spec fn zeroed(c: char) -> char {
    if c == '?' || c == 'x' || c == 'X' || c == 'z' || c == 'Z' {
        '0'
    } else {
        c
    }
}

/// `s` without underscores, and with wildcards as zeros where `wild` says so.
pub open spec fn cleaned(s: Seq<char>, wild: bool) -> Seq<char>
    decreases s.len(),
{
    if s.len() == 0 {
        Seq::empty()
    } else if s.last() == '_' {
        cleaned(s.drop_last(), wild)
    } else {
        cleaned(s.drop_last(), wild).push(
            if wild {
                zeroed(s.last())
            } else {
                s.last()
            },
        )
    }
}

/// Radix that a base letter stands for.
pub open spec fn radix_of(c: char) -> Option<nat> {
    if c == 'd' || c == 'D' {
        Some(10)
    } else if c == 'h' || c == 'H' {
        Some(16)
    } else if c == 'b' || c == 'B' {
        Some(2)
    } else if c == 'o' || c == 'O' {
        Some(8)
    } else {
        None
    }
}

/// Value of what follows the tick of a based literal: an optional `s`, an optional base
/// letter (decimal where there is none), digits.
pub open spec fn based_value(after: Seq<char>) -> i64 {
    let body = if after.len() > 0 && (after[0] == 's' || after[0] == 'S') {
        after.skip(1)
    } else {
        after
    };
    let (radix, digits) = if body.len() > 0 && radix_of(body[0]) is Some {
        (radix_of(body[0]).unwrap(), body.skip(1))
    } else {
        (10nat, body)
    };
    value_or_zero(crate::number::signed_value(cleaned(digits, true), radix))
}

pub open spec fn value_or_zero(v: Option<i64>) -> i64 {
    match v {
        Some(x) => x,
        None => 0,
    }
}

/// Value of a Verilog number literal; zero for text that is none, or whose value does not
/// fit.
pub open spec fn number_value(s: Seq<char>) -> i64 {
    if tick_from(s, 0) < s.len() {
        based_value(s.skip(tick_from(s, 0) + 1))
    } else {
        value_or_zero(crate::number::signed_value(cleaned(s, false), 10))
    }
}

fn clean(chars: &[char], lo: usize, wild: bool) -> (r: Vec<char>)
    requires
        lo <= chars@.len(),
    ensures
        r@ == cleaned(chars@.skip(lo as int), wild),
{
    let ghost s = chars@.skip(lo as int);
    let mut out: Vec<char> = Vec::new();
    let mut i: usize = lo;
    while i < chars.len()
        invariant
            lo <= i <= chars@.len(),
            s == chars@.skip(lo as int),
            out@ == cleaned(s.take(i - lo), wild),
        decreases chars@.len() - i,
    {
        let c = chars[i];
        assert(s.take(i - lo + 1).drop_last() == s.take(i - lo));
        assert(s.take(i - lo + 1).last() == c);
        if c != '_' {
            if wild && (c == '?' || c == 'x' || c == 'X' || c == 'z' || c == 'Z') {
                out.push('0');
            } else {
                out.push(c);
            }
        }
        i = i + 1;
    }
    assert(s.take(i - lo) == s);
    out
}

/// Reads a Verilog number literal.
pub fn parse_verilog_number(s: &str) -> (r: i64)
    ensures
        r == number_value(s@),
{
    let chars = chars_of(s);
    let mut pos: usize = 0;
    while pos < chars.len() && chars[pos] != '\''
        invariant
            pos <= chars@.len(),
            tick_from(chars@, pos as int) == tick_from(chars@, 0),
        decreases chars@.len() - pos,
    {
        pos = pos + 1;
    }
    if pos < chars.len() {
        let mut lo: usize = pos + 1;
        let ghost after = chars@.skip(lo as int);
        if lo < chars.len() && (chars[lo] == 's' || chars[lo] == 'S') {
            lo = lo + 1;
            assert(after.skip(1) == chars@.skip(lo as int));
        }
        let ghost body = chars@.skip(lo as int);
        let mut radix: u32 = 10;
        if lo < chars.len() {
            let c = chars[lo];
            if c == 'd' || c == 'D' {
                lo = lo + 1;
            } else if c == 'h' || c == 'H' {
                radix = 16;
                lo = lo + 1;
            } else if c == 'b' || c == 'B' {
                radix = 2;
                lo = lo + 1;
            } else if c == 'o' || c == 'O' {
                radix = 8;
                lo = lo + 1;
            }
            proof {
                if radix_of(c) is Some {
                    assert(body.skip(1) == chars@.skip(lo as int));
                }
            }
        }
        let digits = clean(chars.as_slice(), lo, true);
        match parse_signed(digits.as_slice(), radix) {
            Some(v) => v,
            None => 0,
        }
    } else {
        assert(chars@.skip(0) == chars@);
        let digits = clean(chars.as_slice(), 0, false);
        match parse_signed(digits.as_slice(), 10) {
            Some(v) => v,
            None => 0,
        }
    }
}

proof fn lemma_cleaned_plain(s: Seq<char>)
    requires
        forall|i: int| 0 <= i < s.len() ==> #[trigger] s[i] != '_',
    ensures
        cleaned(s, false) == s,
    decreases s.len(),
{
    if s.len() > 0 {
        lemma_cleaned_plain(s.drop_last());
        assert(s.drop_last().push(s.last()) =~= s);
    } else {
        assert(s =~= Seq::empty());
    }
}

proof fn lemma_no_tick(s: Seq<char>, i: int)
    requires
        0 <= i <= s.len(),
        forall|j: int| 0 <= j < s.len() ==> #[trigger] s[j] != '\'',
    ensures
        tick_from(s, i) == s.len(),
    decreases s.len() - i,
{
    if i < s.len() {
        lemma_no_tick(s, i + 1);
    }
}

/// The decimal text of an integer is a literal with that value.
pub proof fn law_decimal_literal_value(n: i64)
    ensures
        number_value(crate::number::decimal(n as int)) == n,
{
    let s = crate::number::decimal(n as int);
    crate::number::law_decimal_round_trip(n);
    let m = (if n < 0 {
        -(n as int)
    } else {
        n as int
    }) as nat;
    crate::number::law_decimal_digits_value(m);
    let d = crate::number::decimal_digits(m);
    assert forall|i: int| 0 <= i < s.len() implies #[trigger] s[i] != '_' && s[i] != '\'' by {
        if n < 0 {
            if i > 0 {
                assert(s[i] == d[i - 1]);
            }
        } else {
            assert(s[i] == d[i]);
        }
    }
    lemma_cleaned_plain(s);
    lemma_no_tick(s, 0);
}

/// Known parameter values.
pub type Known = Map<Seq<char>, i64>;

/// Value of `l op r` among parameters; dividing by zero gives zero, and a shift distance
/// is its low 32 bits, at most 63.
pub open spec fn param_binop(op: BinaryOp, l: i64, r: i64) -> i64 {
    let shift: u32 = if (r as u32) < 63 {
        r as u32
    } else {
        63
    };
    match op {
        BinaryOp::Add => crate::arith::wrap64(l + r),
        BinaryOp::Sub => crate::arith::wrap64(l - r),
        BinaryOp::Mul => crate::arith::wrap64(l * r),
        BinaryOp::Div => if r == 0 {
            0
        } else {
            crate::arith::wrap64(crate::arith::div_trunc(l as int, r as int))
        },
        BinaryOp::Mod => if r == 0 {
            0
        } else {
            crate::arith::rem_trunc(l as int, r as int) as i64
        },
        BinaryOp::And => l & r,
        BinaryOp::Or => l | r,
        BinaryOp::Xor => l ^ r,
        BinaryOp::Shl => l << shift,
        BinaryOp::Shr => l >> shift,
        BinaryOp::Ashr => crate::arith::arith_shr(l, shift, 64),
        BinaryOp::LogAnd => crate::optimizer::eval::flag(l != 0 && r != 0),
        BinaryOp::LogOr => crate::optimizer::eval::flag(l != 0 || r != 0),
        BinaryOp::Eq => crate::optimizer::eval::flag(l == r),
        BinaryOp::Ne => crate::optimizer::eval::flag(l != r),
        BinaryOp::Lt => crate::optimizer::eval::flag(l < r),
        BinaryOp::Le => crate::optimizer::eval::flag(l <= r),
        BinaryOp::Gt => crate::optimizer::eval::flag(l > r),
        BinaryOp::Ge => crate::optimizer::eval::flag(l >= r),
    }
}

/// Value of `op v` among parameters.
pub open spec fn param_unop(op: UnaryOp, v: i64) -> i64 {
    match op {
        UnaryOp::Pos => v,
        UnaryOp::Neg => crate::arith::wrap64(-v),
        UnaryOp::Not => !v,
        UnaryOp::LogNot => crate::optimizer::eval::flag(v == 0),
    }
}

/// Value of a parameter expression, where the known parameters decide it.
pub open spec fn param_value(e: SynExpr, known: Known) -> Option<i64>
    decreases e,
{
    match e {
        SynExpr::Number(s) => Some(number_value(s)),
        SynExpr::Ident(name) => if known.contains_key(name) {
            Some(known[name])
        } else {
            None
        },
        SynExpr::Unary { op, operand } => match param_value(*operand, known) {
            Some(v) => Some(param_unop(op, v)),
            None => None,
        },
        SynExpr::Binary { op, left, right } => match (
            param_value(*left, known),
            param_value(*right, known),
        ) {
            (Some(l), Some(r)) => Some(param_binop(op, l, r)),
            _ => None,
        },
        SynExpr::Ternary { cond, then_expr, else_expr } => match param_value(*cond, known) {
            Some(c) => if c != 0 {
                param_value(*then_expr, known)
            } else {
                param_value(*else_expr, known)
            },
            None => None,
        },
        SynExpr::Clog2(x) => match param_value(*x, known) {
            Some(v) => Some(clog2(v as int) as i64),
            None => None,
        },
        SynExpr::Signed(x) => match param_value(*x, known) {
            Some(v) => Some(crate::arith::sign_extend(v, 32)),
            None => None,
        },
        SynExpr::Concat(_) => None,
        SynExpr::Index { .. } => None,
    }
}

fn flag_of(b: bool) -> (r: i64)
    ensures
        r == crate::optimizer::eval::flag(b),
{
    if b {
        1
    } else {
        0
    }
}

fn eval_binop_for_localparam(op: BinaryOp, l: i64, r: i64) -> (v: i64)
    ensures
        v == param_binop(op, l, r),
{
    proof {
        crate::arith::lemma_wrap64(l + r);
        crate::arith::lemma_wrap64(l - r);
        crate::arith::lemma_wrap64(crate::arith::div_trunc(l as int, r as int));
        if l == i64::MIN && r == -1 {
            assert(crate::arith::div_trunc(l as int, r as int) == 0x8000_0000_0000_0000int) by {
                assert(0x8000_0000_0000_0000int / 1int == 0x8000_0000_0000_0000int);
            }
        }
    }
    let low: u32 = r as u32;
    let shift: u32 = if low < 63 {
        low
    } else {
        63
    };
    match op {
        BinaryOp::Add => l.wrapping_add(r),
        BinaryOp::Sub => l.wrapping_sub(r),
        BinaryOp::Mul => l.wrapping_mul(r),
        BinaryOp::Div => if r == 0 {
            0
        } else {
            div_wrapping(l, r)
        },
        BinaryOp::Mod => if r == 0 {
            0
        } else {
            rem_wrapping(l, r)
        },
        BinaryOp::And => l & r,
        BinaryOp::Or => l | r,
        BinaryOp::Xor => l ^ r,
        BinaryOp::Shl => l.wrapping_shl(shift),
        BinaryOp::Shr => l.wrapping_shr(shift),
        BinaryOp::Ashr => arith_shr_i64(l, shift, 64),
        BinaryOp::LogAnd => flag_of(l != 0 && r != 0),
        BinaryOp::LogOr => flag_of(l != 0 || r != 0),
        BinaryOp::Eq => flag_of(l == r),
        BinaryOp::Ne => flag_of(l != r),
        BinaryOp::Lt => flag_of(l < r),
        BinaryOp::Le => flag_of(l <= r),
        BinaryOp::Gt => flag_of(l > r),
        BinaryOp::Ge => flag_of(l >= r),
    }
}

/// The values that a table of parameters holds; the first entry of a name counts.
pub open spec fn table(s: Seq<(String, i64)>) -> Known
    decreases s.len(),
{
    if s.len() == 0 {
        Map::empty()
    } else if table(s.drop_last()).contains_key(s.last().0@) {
        table(s.drop_last())
    } else {
        table(s.drop_last()).insert(s.last().0@, s.last().1)
    }
}

/// Looks a parameter up.
pub fn lookup(known: &[(String, i64)], name: &str) -> (r: Option<i64>)
    ensures
        r == if table(known@).contains_key(name@) {
            Some(table(known@)[name@])
        } else {
            None
        },
{
    let mut i: usize = 0;
    let mut found: Option<i64> = None;
    while i < known.len()
        invariant
            i <= known@.len(),
            found == if table(known@.take(i as int)).contains_key(name@) {
                Some(table(known@.take(i as int))[name@])
            } else {
                None
            },
        decreases known@.len() - i,
    {
        assert(known@.take(i + 1).drop_last() == known@.take(i as int));
        assert(known@.take(i + 1).last() == known@[i as int]);
        if found.is_none() && str_eq(known[i].0.as_str(), name) {
            found = Some(known[i].1);
        }
        i = i + 1;
    }
    assert(known@.take(i as int) == known@);
    found
}

/// Evaluates a parameter expression over the parameters known so far.
pub fn const_eval_param_expr(e: &Expr, known: &[(String, i64)]) -> (r: Option<i64>)
    ensures
        r == param_value(e@, table(known@)),
    decreases e,
{
    match e {
        Expr::Number(s) => Some(parse_verilog_number(s.as_str())),
        Expr::Ident(name) => lookup(known, name.as_str()),
        Expr::Unary { op, operand } => {
            let v = match const_eval_param_expr(operand, known) {
                Some(v) => v,
                None => {
                    return None;
                },
            };
            proof {
                crate::arith::lemma_wrap64(-v as int);
            }
            match op {
                UnaryOp::Pos => Some(v),
                UnaryOp::Neg => Some(0i64.wrapping_sub(v)),
                UnaryOp::Not => Some(!v),
                UnaryOp::LogNot => Some(flag_of(v == 0)),
            }
        },
        Expr::Binary { op, left, right } => {
            let l = const_eval_param_expr(left, known);
            let r = const_eval_param_expr(right, known);
            match (l, r) {
                (Some(l), Some(r)) => Some(eval_binop_for_localparam(*op, l, r)),
                _ => None,
            }
        },
        Expr::Ternary { cond, then_expr, else_expr } => {
            match const_eval_param_expr(cond, known) {
                Some(c) => if c != 0 {
                    const_eval_param_expr(then_expr, known)
                } else {
                    const_eval_param_expr(else_expr, known)
                },
                None => None,
            }
        },
        Expr::Clog2(x) => match const_eval_param_expr(x, known) {
            Some(v) => Some(verilog_clog2(v)),
            None => None,
        },
        Expr::Signed(x) => match const_eval_param_expr(x, known) {
            Some(v) => Some(sign_extend_i64(v, 32)),
            None => None,
        },
        Expr::Concat(_) => None,
        Expr::Index { .. } => None,
    }
}

/// Knowing more parameters changes no value that is already decided.
pub proof fn law_param_value_is_monotone(e: SynExpr, known: Known, more: Known)
    requires
        known.submap_of(more),
        param_value(e, known) is Some,
    ensures
        param_value(e, more) == param_value(e, known),
    decreases e,
{
    match e {
        SynExpr::Unary { op, operand } => {
            law_param_value_is_monotone(*operand, known, more);
        },
        SynExpr::Binary { op, left, right } => {
            law_param_value_is_monotone(*left, known, more);
            law_param_value_is_monotone(*right, known, more);
        },
        SynExpr::Ternary { cond, then_expr, else_expr } => {
            law_param_value_is_monotone(*cond, known, more);
            if param_value(*cond, known).unwrap() != 0 {
                law_param_value_is_monotone(*then_expr, known, more);
            } else {
                law_param_value_is_monotone(*else_expr, known, more);
            }
        },
        SynExpr::Clog2(x) => {
            law_param_value_is_monotone(*x, known, more);
        },
        SynExpr::Signed(x) => {
            law_param_value_is_monotone(*x, known, more);
        },
        _ => {},
    }
}

/// The expression that a list of parameters gives a name; the last entry counts.
pub open spec fn definition(pairs: Seq<(Seq<char>, SynExpr)>, name: Seq<char>) -> Option<SynExpr>
    decreases pairs.len(),
{
    if pairs.len() == 0 {
        None
    } else if pairs.last().0 == name {
        Some(pairs.last().1)
    } else {
        definition(pairs.drop_last(), name)
    }
}

/// The parameter `name` has a value once the parameters in `known` are known.
pub open spec fn decided(pairs: Seq<(Seq<char>, SynExpr)>, known: Known, name: Seq<char>) -> bool {
    match definition(pairs, name) {
        Some(e) => param_value(e, known) is Some,
        None => false,
    }
}

/// Everything that is decided once the parameters in `known` are known.
pub open spec fn decide(pairs: Seq<(Seq<char>, SynExpr)>, known: Known) -> Known {
    Map::new(
        |name: Seq<char>| decided(pairs, known, name),
        |name: Seq<char>| param_value(definition(pairs, name).unwrap(), known).unwrap(),
    )
}

/// What `rounds` rounds of deciding give, from nothing.
pub open spec fn decided_after(pairs: Seq<(Seq<char>, SynExpr)>, rounds: nat) -> Known
    decreases rounds,
{
    if rounds == 0 {
        Map::empty()
    } else {
        decide(pairs, decided_after(pairs, (rounds - 1) as nat))
    }
}

/// Values of all parameters that depend, directly or not, on numbers alone.
pub open spec fn param_values(pairs: Seq<(Seq<char>, SynExpr)>) -> Known {
    decided_after(pairs, pairs.len())
}

proof fn lemma_decide_monotone(pairs: Seq<(Seq<char>, SynExpr)>, known: Known, more: Known)
    requires
        known.submap_of(more),
    ensures
        decide(pairs, known).submap_of(decide(pairs, more)),
{
    assert forall|name: Seq<char>| #[trigger]
        decide(pairs, known).contains_key(name) implies decide(pairs, more).contains_key(name)
        && decide(pairs, known)[name] == decide(pairs, more)[name] by {
        law_param_value_is_monotone(definition(pairs, name).unwrap(), known, more);
    }
}

proof fn lemma_held(known: Known, more: Known, name: Seq<char>)
    requires
        known.submap_of(more),
        known.contains_key(name),
    ensures
        more.contains_key(name),
        more[name] == known[name],
{
    assert(known.dom().contains(name));
    assert(more.dom().contains(name));
}

proof fn lemma_held_with(known: Known, more: Known, name: Seq<char>, v: i64)
    requires
        known.submap_of(more),
        more.contains_key(name),
        more[name] == v,
    ensures
        known.insert(name, v).submap_of(more),
{
    assert forall|n: Seq<char>| #[trigger]
        known.insert(name, v).dom().contains(n) implies more.dom().contains(n) && known.insert(
        name,
        v,
    )[n] == more[n] by {
        if n != name {
            lemma_held(known, more, n);
        }
    }
}

proof fn lemma_held_trans(a: Known, b: Known, c: Known)
    requires
        a.submap_of(b),
        b.submap_of(c),
    ensures
        a.submap_of(c),
{
    assert forall|n: Seq<char>| #[trigger] a.dom().contains(n) implies c.dom().contains(n) && a[n]
        == c[n] by {
        lemma_held(a, b, n);
        lemma_held(b, c, n);
    }
}

proof fn lemma_held_both(a: Known, b: Known)
    requires
        a.submap_of(b),
        b.submap_of(a),
    ensures
        a == b,
{
    assert forall|n: Seq<char>| #[trigger] a.dom().contains(n) == b.dom().contains(n) by {
        if a.dom().contains(n) {
            lemma_held(a, b, n);
        }
        if b.dom().contains(n) {
            lemma_held(b, a, n);
        }
    }
    assert forall|n: Seq<char>| #[trigger] a.dom().contains(n) implies a[n] == b[n] by {
        lemma_held(a, b, n);
    }
    assert(a =~= b);
}

proof fn lemma_rounds_grow(pairs: Seq<(Seq<char>, SynExpr)>, j: nat, k: nat)
    requires
        j <= k,
    ensures
        decided_after(pairs, j).submap_of(decided_after(pairs, k)),
    decreases k,
{
    if j > 0 {
        lemma_rounds_grow(pairs, (j - 1) as nat, (k - 1) as nat);
        lemma_decide_monotone(
            pairs,
            decided_after(pairs, (j - 1) as nat),
            decided_after(pairs, (k - 1) as nat),
        );
    }
}

/// `known` holds everything that it decides.
pub open spec fn saturated(pairs: Seq<(Seq<char>, SynExpr)>, known: Known) -> bool {
    forall|name: Seq<char>| #[trigger] decided(pairs, known, name) ==> known.contains_key(name)
}

proof fn lemma_saturated_holds_rounds(
    pairs: Seq<(Seq<char>, SynExpr)>,
    known: Known,
    n: nat,
    k: nat,
)
    requires
        saturated(pairs, known),
        known.submap_of(decided_after(pairs, n)),
    ensures
        decided_after(pairs, k).submap_of(known),
    decreases k,
{
    if k > 0 {
        let before = decided_after(pairs, (k - 1) as nat);
        lemma_saturated_holds_rounds(pairs, known, n, (k - 1) as nat);
        let top = if n >= k {
            n
        } else {
            k
        };
        lemma_rounds_grow(pairs, k, top);
        lemma_rounds_grow(pairs, n, top);
        assert forall|name: Seq<char>| #[trigger]
            decided_after(pairs, k).contains_key(name) implies known.contains_key(name)
            && decided_after(pairs, k)[name] == known[name] by {
            assert(decide(pairs, before).contains_key(name));
            law_param_value_is_monotone(definition(pairs, name).unwrap(), before, known);
            assert(decided(pairs, known, name));
            lemma_held(decided_after(pairs, k), decided_after(pairs, top), name);
            lemma_held(known, decided_after(pairs, n), name);
            lemma_held(decided_after(pairs, n), decided_after(pairs, top), name);
        }
    }
}

/// Entry `i` is the last of its name.
pub open spec fn is_last(pairs: Seq<(Seq<char>, SynExpr)>, i: int) -> bool {
    forall|j: int| i < j < pairs.len() ==> (#[trigger] pairs[j]).0 != pairs[i].0
}

proof fn lemma_last_defines(pairs: Seq<(Seq<char>, SynExpr)>, i: int)
    requires
        0 <= i < pairs.len(),
        is_last(pairs, i),
    ensures
        definition(pairs, pairs[i].0) == Some(pairs[i].1),
    decreases pairs.len(),
{
    if i < pairs.len() - 1 {
        assert(pairs.drop_last()[i] == pairs[i]);
        assert(is_last(pairs.drop_last(), i)) by {
            assert forall|j: int| i < j < pairs.drop_last().len() implies (
            #[trigger] pairs.drop_last()[j]).0 != pairs.drop_last()[i].0 by {
                assert(pairs[j].0 != pairs[i].0);
            }
        }
        lemma_last_defines(pairs.drop_last(), i);
        assert(pairs[pairs.len() - 1].0 != pairs[i].0);
    }
}

proof fn lemma_defined_has_last(pairs: Seq<(Seq<char>, SynExpr)>, name: Seq<char>) -> (i: int)
    requires
        definition(pairs, name) is Some,
    ensures
        0 <= i < pairs.len(),
        pairs[i].0 == name,
        is_last(pairs, i),
    decreases pairs.len(),
{
    if pairs.last().0 == name {
        pairs.len() - 1
    } else {
        let i = lemma_defined_has_last(pairs.drop_last(), name);
        assert forall|j: int| i < j < pairs.len() implies (#[trigger] pairs[j]).0
            != pairs[i].0 by {
            if j < pairs.len() - 1 {
                assert(pairs.drop_last()[j] == pairs[j]);
            }
        }
        i
    }
}

proof fn lemma_table_push(s: Seq<(String, i64)>, name: String, v: i64)
    requires
        !table(s).contains_key(name@),
    ensures
        table(s.push((name, v))) == table(s).insert(name@, v),
{
    assert(s.push((name, v)).drop_last() =~= s);
}

proof fn lemma_index_count(seen: Set<int>, n: int)
    requires
        seen.finite(),
        0 <= n,
        forall|i: int| #[trigger] seen.contains(i) ==> 0 <= i < n,
    ensures
        seen.len() <= n,
{
    vstd::set_lib::lemma_int_range(0, n);
    vstd::set_lib::lemma_len_subset(seen, vstd::set_lib::set_int_range(0, n));
}

fn last_of_name(pairs: &[(String, Expr)], i: usize) -> (r: bool)
    requires
        i < pairs@.len(),
    ensures
        r == is_last(crate::parser::cst::pairs_view(pairs@), i as int),
{
    let ghost model = crate::parser::cst::pairs_view(pairs@);
    assert(pairs@.len() == pairs.len());
    let mut j: usize = i + 1;
    while j < pairs.len()
        invariant
            i < j <= pairs@.len(),
            model == crate::parser::cst::pairs_view(pairs@),
            forall|k: int| i < k < j ==> (#[trigger] model[k]).0 != model[i as int].0,
        decreases pairs@.len() - j,
    {
        if str_eq(pairs[j].0.as_str(), pairs[i].0.as_str()) {
            assert(model[j as int].0 == model[i as int].0);
            return false;
        }
        j = j + 1;
    }
    true
}

/// Resolves parameters that may refer to each other in any order. A name given twice
/// takes its last expression; one that is never decided has no value.
pub fn resolve_local_param_values(pairs: &[(String, Expr)]) -> (r: Vec<(String, i64)>)
    ensures
        table(r@) == param_values(crate::parser::cst::pairs_view(pairs@)),
{
    let ghost model = crate::parser::cst::pairs_view(pairs@);
    let mut out: Vec<(String, i64)> = Vec::new();
    let ghost mut seen: Set<int> = Set::empty();
    let mut progress: bool = true;
    while progress
        invariant
            model == crate::parser::cst::pairs_view(pairs@),
            table(out@).submap_of(decided_after(model, out@.len())),
            seen.finite(),
            seen.len() == out@.len(),
            out@.len() <= pairs@.len(),
            forall|i: int| #[trigger]
                seen.contains(i) ==> 0 <= i < model.len() && table(out@).contains_key(model[i].0),
            !progress ==> saturated(model, table(out@)),
        decreases pairs@.len() - out@.len() + (if progress {
            1int
        } else {
            0int
        }),
    {
        progress = false;
        let ghost before = out@;
        let mut i: usize = 0;
        while i < pairs.len()
            invariant
                i <= pairs@.len(),
                model == crate::parser::cst::pairs_view(pairs@),
                table(out@).submap_of(decided_after(model, out@.len())),
                seen.finite(),
                seen.len() == out@.len(),
                before.len() <= out@.len() <= pairs@.len(),
                forall|i: int| #[trigger]
                    seen.contains(i) ==> 0 <= i < model.len() && table(out@).contains_key(
                        model[i].0,
                    ),
                progress ==> before.len() < out@.len(),
                !progress ==> out@ == before,
                !progress ==> forall|j: int|
                    0 <= j < i && #[trigger] is_last(model, j) ==> table(out@).contains_key(
                        model[j].0,
                    ) || param_value(model[j].1, table(out@)) is None,
            decreases pairs@.len() - i,
        {
            let entry = &pairs[i];
            assert(model[i as int] == (entry.0@, entry.1@));
            if last_of_name(pairs, i) && lookup(out.as_slice(), entry.0.as_str()).is_none() {
                if let Some(v) = const_eval_param_expr(&entry.1, out.as_slice()) {
                    let ghost known = table(out@);
                    let ghost n = out@.len();
                    proof {
                        lemma_last_defines(model, i as int);
                        lemma_table_push(out@, entry.0, v);
                        law_param_value_is_monotone(entry.1@, known, decided_after(model, n));
                        lemma_rounds_grow(model, n, (n + 1) as nat);
                        let next = decided_after(model, (n + 1) as nat);
                        assert(decided(model, decided_after(model, n), entry.0@));
                        assert(next.contains_key(entry.0@));
                        assert(next[entry.0@] == v);
                        lemma_held_trans(known, decided_after(model, n), next);
                        lemma_held_with(known, next, entry.0@, v);
                        assert(!seen.contains(i as int));
                        seen = seen.insert(i as int);
                        lemma_index_count(seen, model.len() as int);
                    }
                    out.push((entry.0.clone(), v));
                    progress = true;
                }
            }
            i = i + 1;
        }
        proof {
            if !progress {
                assert forall|name: Seq<char>| #[trigger]
                    decided(model, table(out@), name) implies table(out@).contains_key(name) by {
                    let j = lemma_defined_has_last(model, name);
                    lemma_last_defines(model, j);
                    assert(is_last(model, j));
                }
            }
        }
    }
    proof {
        lemma_saturated_holds_rounds(model, table(out@), out@.len(), model.len());
        lemma_rounds_grow(model, out@.len(), model.len());
        lemma_held_trans(table(out@), decided_after(model, out@.len()), param_values(model));
        lemma_held_both(table(out@), param_values(model));
    }
    out
}

/// Nothing is left to decide once the parameters are resolved: a parameter has a value
/// exactly when its expression has one over the resolved parameters, and it is that one.
pub proof fn law_param_values_are_complete(pairs: Seq<(Seq<char>, SynExpr)>)
    ensures
        decide(pairs, param_values(pairs)) == param_values(pairs),
{
    let (known, n) = lemma_saturation(pairs);
    lemma_saturated_holds_rounds(pairs, known, n, pairs.len());
    lemma_rounds_grow(pairs, n, pairs.len());
    lemma_held_trans(known, decided_after(pairs, n), param_values(pairs));
    lemma_held_both(known, param_values(pairs));
    lemma_saturated_holds_rounds(pairs, known, n, (pairs.len() + 1) as nat);
    lemma_rounds_grow(pairs, pairs.len(), (pairs.len() + 1) as nat);
    lemma_held_both(decide(pairs, param_values(pairs)), param_values(pairs));
}

/// Some set of at most all parameters, each decided in its turn, holds everything that it
/// decides.
proof fn lemma_saturation(pairs: Seq<(Seq<char>, SynExpr)>) -> (r: (Known, nat))
    ensures
        saturated(pairs, r.0),
        r.0.submap_of(decided_after(pairs, r.1)),
        r.1 <= pairs.len(),
{
    lemma_saturation_from(pairs, Map::empty(), Set::empty())
}

proof fn lemma_saturation_from(
    pairs: Seq<(Seq<char>, SynExpr)>,
    known: Known,
    seen: Set<int>,
) -> (r: (Known, nat))
    requires
        seen.finite(),
        seen.len() <= pairs.len(),
        known.submap_of(decided_after(pairs, seen.len())),
        forall|i: int| #[trigger]
            seen.contains(i) ==> 0 <= i < pairs.len() && known.contains_key(pairs[i].0),
    ensures
        saturated(pairs, r.0),
        r.0.submap_of(decided_after(pairs, r.1)),
        r.1 <= pairs.len(),
    decreases pairs.len() - seen.len(),
{
    if saturated(pairs, known) {
        (known, seen.len())
    } else {
        let name = choose|name: Seq<char>| #[trigger]
            decided(pairs, known, name) && !known.contains_key(name);
        let i = lemma_defined_has_last(pairs, name);
        lemma_last_defines(pairs, i);
        let n = seen.len();
        let v = param_value(pairs[i].1, known).unwrap();
        law_param_value_is_monotone(pairs[i].1, known, decided_after(pairs, n));
        lemma_rounds_grow(pairs, n, (n + 1) as nat);
        let next = decided_after(pairs, (n + 1) as nat);
        assert(decided(pairs, decided_after(pairs, n), name));
        assert(next.contains_key(name));
        lemma_held_trans(known, decided_after(pairs, n), next);
        lemma_held_with(known, next, name, v);
        lemma_index_count(seen.insert(i), pairs.len() as int);
        lemma_saturation_from(pairs, known.insert(name, v), seen.insert(i))
    }
}

} // verus!
