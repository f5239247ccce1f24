//! Laws: edges, values and windows of waveforms.
use crate::waves::EdgeKind;
use vstd::prelude::*;

verus! {

/// The text is made of zeros and ones, most significant first, with these digits.
pub open spec fn bits_are(s: Seq<char>, ds: Seq<nat>) -> bool {
    crate::literal_laws::digits_are(s, ds, 2) && s.len() > 0
}

/// White space around a text does not count.
pub proof fn law_surrounding_space(a: Seq<char>, s: Seq<char>, b: Seq<char>)
    requires
        forall|i: int| 0 <= i < a.len() ==> crate::text::is_space(#[trigger] a[i]),
        forall|i: int| 0 <= i < b.len() ==> crate::text::is_space(#[trigger] b[i]),
        s.len() > 0,
        !crate::text::is_space(s[0]) && !crate::text::is_space(s.last()),
    ensures
        crate::waves::trimmed(a + s + b) == s,
{
    lemma_head(a, s + b);
    assert(a + (s + b) =~= a + s + b);
    lemma_tail(s, b);
}

proof fn lemma_head(a: Seq<char>, s: Seq<char>)
    requires
        forall|i: int| 0 <= i < a.len() ==> crate::text::is_space(#[trigger] a[i]),
        s.len() > 0 && !crate::text::is_space(s[0]),
    ensures
        crate::waves::without_head_space(a + s) == s,
    decreases a.len(),
{
    if a.len() == 0 {
        assert(a + s =~= s);
    } else {
        assert((a + s).drop_first() =~= a.drop_first() + s);
        assert((a + s)[0] == a[0]);
        assert forall|i: int| 0 <= i < a.drop_first().len() implies crate::text::is_space(
            #[trigger] a.drop_first()[i],
        ) by {
            assert(crate::text::is_space(a[i + 1]));
        }
        lemma_head(a.drop_first(), s);
    }
}

proof fn lemma_tail(s: Seq<char>, b: Seq<char>)
    requires
        forall|i: int| 0 <= i < b.len() ==> crate::text::is_space(#[trigger] b[i]),
        s.len() > 0 && !crate::text::is_space(s.last()),
    ensures
        crate::waves::without_tail_space(s + b) == s,
    decreases b.len(),
{
    if b.len() == 0 {
        assert(s + b =~= s);
    } else {
        assert((s + b).drop_last() =~= s + b.drop_last());
        assert((s + b).last() == b[b.len() - 1]);
        assert forall|i: int| 0 <= i < b.drop_last().len() implies crate::text::is_space(
            #[trigger] b.drop_last()[i],
        ) by {
            assert(crate::text::is_space(b[i]));
        }
        lemma_tail(s, b.drop_last());
    }
}

proof fn lemma_bits_stay(s: Seq<char>, ds: Seq<nat>)
    requires
        bits_are(s, ds),
    ensures
        crate::waves::trimmed(s) == s,
        crate::waves::is_bits(s),
{
    assert forall|i: int| 0 <= i < s.len() implies (#[trigger] s[i] == '0' || s[i]
        == '1') by {
        let c = s[i];
        let d = ds[i];
        assert(crate::literal_laws::digit_is(c, d));
        assert(d < 2);
    }
    let none = Seq::<char>::empty();
    assert(s[0] == '0' || s[0] == '1');
    assert(s[s.len() - 1] == '0' || s[s.len() - 1] == '1');
    law_surrounding_space(none, s, none);
    assert(none + s + none =~= s);
}

proof fn lemma_bits_value(s: Seq<char>, ds: Seq<nat>)
    requires
        crate::literal_laws::digits_are(s, ds, 2),
    ensures
        crate::waves::bits_value(s) == crate::literal_laws::worth(ds, 2),
    decreases s.len(),
{
    if s.len() > 0 {
        assert(crate::literal_laws::digit_is(s[s.len() - 1], ds[ds.len() - 1]));
        assert(crate::literal_laws::digits_are(s.drop_last(), ds.drop_last(), 2));
        lemma_bits_value(s.drop_last(), ds.drop_last());
    }
}

/// A text of zeros and ones is the number they stand for.
pub proof fn law_binary_value(s: Seq<char>, ds: Seq<nat>)
    requires
        bits_are(s, ds),
    ensures
        crate::waves::binary_value(s) == if crate::literal_laws::worth(ds, 2) <= u128::MAX {
            Some(crate::literal_laws::worth(ds, 2) as u128)
        } else {
            None
        },
{
    lemma_bits_stay(s, ds);
    lemma_bits_value(s, ds);
}

/// A bus rises where its number grows, falls where it shrinks, and has some edge wherever its
/// text changes.
pub proof fn law_bus_edges(p: Seq<char>, dp: Seq<nat>, n: Seq<char>, dn: Seq<nat>, bits: u32)
    requires
        bits_are(p, dp),
        bits_are(n, dn),
        bits > 1,
        crate::literal_laws::worth(dp, 2) <= u128::MAX,
        crate::literal_laws::worth(dn, 2) <= u128::MAX,
    ensures
        crate::waves::is_edge(p, n, bits, EdgeKind::Rising) <==> crate::literal_laws::worth(dp, 2)
            < crate::literal_laws::worth(dn, 2),
        crate::waves::is_edge(p, n, bits, EdgeKind::Falling) <==> crate::literal_laws::worth(dn, 2)
            < crate::literal_laws::worth(dp, 2),
        crate::waves::is_edge(p, n, bits, EdgeKind::Any) <==> p != n,
{
    law_binary_value(p, dp);
    law_binary_value(n, dn);
    if p == n {
        lemma_bits_value(p, dp);
        lemma_bits_value(p, dn);
    }
}

/// A single bit rises from zero to one, and falls from one to zero.
pub proof fn law_bit_edges(p: Seq<char>, n: Seq<char>, bits: u32)
    requires
        bits <= 1,
        p == seq!['0'] || p == seq!['1'],
        n == seq!['0'] || n == seq!['1'],
    ensures
        crate::waves::is_edge(p, n, bits, EdgeKind::Rising) <==> p[0] == '0' && n[0] == '1',
        crate::waves::is_edge(p, n, bits, EdgeKind::Falling) <==> p[0] == '1' && n[0] == '0',
        crate::waves::is_edge(p, n, bits, EdgeKind::Any) <==> p[0] != n[0],
{
    let dp: Seq<nat> = seq![
        if p[0] == '0' {
            0nat
        } else {
            1nat
        },
    ];
    let dn: Seq<nat> = seq![
        if n[0] == '0' {
            0nat
        } else {
            1nat
        },
    ];
    lemma_bits_stay(p, dp);
    lemma_bits_stay(n, dn);
    assert(seq!['0'] != seq!['1']) by {
        assert(seq!['0'][0] != seq!['1'][0]);
    }
}

/// The digit of a text for bit `b`, counted from its end; bits beyond the text are zero.
pub open spec fn digit_from_end(s: Seq<char>, b: int) -> char {
    if b < s.len() {
        s[s.len() - 1 - b]
    } else {
        '0'
    }
}

/// One bit of a bus, counted from the least significant one.
pub proof fn law_bit_of_bus(s: Seq<char>, ds: Seq<nat>, width: u32, b: u32)
    requires
        bits_are(s, ds),
        b < width,
    ensures
        digit_from_end(s, b as int) == '0' ==> crate::waves::value_bit(s, width, b) == Some(0u8),
        digit_from_end(s, b as int) == '1' ==> crate::waves::value_bit(s, width, b) == Some(1u8),
        digit_from_end(s, b as int) == '0' || digit_from_end(s, b as int) == '1',
{
    lemma_bits_stay(s, ds);
    let t = crate::waves::bus_bits(s, width).unwrap();
    assert forall|i: int| 0 <= i < t.len() implies '\0' <= #[trigger] t[i] <= '\u{7f}' by {
        if s.len() >= width {
            assert(t[i] == s[i + s.len() - width]);
        } else if i >= width - s.len() {
            assert(t[i] == s[i - (width - s.len())]);
        }
    }
    assert(vstd::utf8::is_ascii_chars(t));
    vstd::utf8::is_ascii_chars_encode_utf8(t);
    let i = width - 1 - b;
    assert(t.len() == width);
    assert(t[i] == digit_from_end(s, b as int)) by {
        if s.len() >= width {
            assert(t[i] == s[i + s.len() - width]);
        } else if i >= width - s.len() {
            assert(t[i] == s[i - (width - s.len())]);
        }
    }
    if b < s.len() {
        assert(s[s.len() - 1 - b] == '0' || s[s.len() - 1 - b] == '1');
    }
    assert('0' as u8 == 0x30 && '1' as u8 == 0x31);
}

/// An edge of one bit of a bus.
pub proof fn law_edges_of_a_bit(
    p: Seq<char>,
    dp: Seq<nat>,
    n: Seq<char>,
    dn: Seq<nat>,
    width: u32,
    b: u32,
)
    requires
        bits_are(p, dp),
        bits_are(n, dn),
        b < width,
    ensures
        ({
            let (x, y) = (digit_from_end(p, b as int), digit_from_end(n, b as int));
            &&& crate::waves::is_bit_edge(p, n, width, b, EdgeKind::Rising) <==> x == '0' && y
                == '1'
            &&& crate::waves::is_bit_edge(p, n, width, b, EdgeKind::Falling) <==> x == '1' && y
                == '0'
            &&& crate::waves::is_bit_edge(p, n, width, b, EdgeKind::Any) <==> x != y
        }),
{
    law_bit_of_bus(p, dp, width, b);
    law_bit_of_bus(n, dn, width, b);
}

/// Times never go back.
pub open spec fn in_order(ps: Seq<(u64, Seq<char>)>) -> bool {
    forall|i: int, j: int| 0 <= i < j < ps.len() ==> (#[trigger] ps[i]).0 <= (#[trigger] ps[j]).0
}

/// The value of a row list at a time is that of the last row up to then.
pub proof fn law_value_at(rows: Seq<(u64, Seq<char>)>, t: u64, k: int)
    requires
        in_order(rows),
        0 <= k < rows.len(),
        rows[k].0 <= t,
        k + 1 < rows.len() ==> rows[k + 1].0 > t,
    ensures
        crate::waves::value_at(rows, t) == rows[k].1,
{
    lemma_rows_up_to(rows, t, k, 0);
}

proof fn lemma_rows_up_to(rows: Seq<(u64, Seq<char>)>, t: u64, k: int, i: int)
    requires
        in_order(rows),
        0 <= k < rows.len(),
        rows[k].0 <= t,
        k + 1 < rows.len() ==> rows[k + 1].0 > t,
        0 <= i <= k + 1,
    ensures
        crate::waves::rows_up_to(rows, i, t) == k + 1,
    decreases k + 1 - i,
{
    if i <= k {
        if i < k {
            assert(rows[i].0 <= rows[k].0);
        }
        lemma_rows_up_to(rows, t, k, i + 1);
    }
}

proof fn lemma_stop(ps: Seq<(u64, Seq<char>)>, i: int, t0: u64, t1: u64)
    requires
        in_order(ps),
        t0 <= t1,
        0 <= i <= ps.len(),
        forall|k: int| 0 <= k < i ==> (#[trigger] ps[k]).0 <= t1,
    ensures
        ({
            let n = crate::waves::window_stop(ps, i, t0, t1);
            &&& i <= n <= ps.len()
            &&& forall|k: int| 0 <= k < n ==> (#[trigger] ps[k]).0 <= t1
            &&& forall|k: int| n <= k < ps.len() ==> (#[trigger] ps[k]).0 > t1
        }),
    decreases ps.len() - i,
{
    if i < ps.len() && !(t0 <= ps[i].0 && t1 < ps[i].0) {
        lemma_stop(ps, i + 1, t0, t1);
    }
}

proof fn lemma_before(ps: Seq<(u64, Seq<char>)>, t0: u64, k: int)
    requires
        in_order(ps),
        0 <= k < ps.len(),
        ps[k].0 < t0,
        k + 1 < ps.len() ==> ps[k + 1].0 >= t0,
    ensures
        crate::waves::value_before(ps, t0) == Some(ps[k].1),
    decreases ps.len(),
{
    if k < ps.len() - 1 {
        let front = ps.drop_last();
        assert(ps[k + 1].0 <= ps[ps.len() - 1].0);
        assert(in_order(front)) by {
            assert forall|i: int, j: int| 0 <= i < j < front.len() implies (#[trigger] front[i]).0
                <= (#[trigger] front[j]).0 by {
                assert(ps[i].0 <= ps[j].0);
            }
        }
        lemma_before(front, t0, k);
    }
}

proof fn lemma_none_before(ps: Seq<(u64, Seq<char>)>, t0: u64)
    requires
        forall|k: int| 0 <= k < ps.len() ==> (#[trigger] ps[k]).0 >= t0,
    ensures
        crate::waves::value_before(ps, t0) is None,
    decreases ps.len(),
{
    if ps.len() > 0 {
        assert(ps[ps.len() - 1].0 >= t0);
        lemma_none_before(ps.drop_last(), t0);
    }
}

proof fn lemma_kept(ps: Seq<(u64, Seq<char>)>, t0: u64, a: int)
    requires
        0 <= a <= ps.len(),
        forall|k: int| 0 <= k < a ==> (#[trigger] ps[k]).0 < t0,
        forall|k: int| a <= k < ps.len() ==> (#[trigger] ps[k]).0 >= t0,
    ensures
        crate::waves::points_from(ps, t0) == ps.skip(a),
    decreases ps.len(),
{
    reveal(Seq::filter);
    if ps.len() > 0 {
        let front = ps.drop_last();
        assert forall|k: int| 0 <= k < front.len() implies front[k] == ps[k] by {}
        if a < ps.len() {
            lemma_kept(front, t0, a);
            assert(ps[ps.len() - 1].0 >= t0);
            assert(front.skip(a).push(ps.last()) =~= ps.skip(a));
        } else {
            lemma_kept(front, t0, a - 1);
            assert(ps[ps.len() - 1].0 < t0);
            assert(front.skip(a - 1) =~= ps.skip(a));
        }
    }
    assert(crate::waves::points_from(ps, t0) =~= ps.skip(a));
}

/// The rows of a window are the changes in it, in order; where the first of them is not at
/// its start, the value of the last change before it stands there.
pub proof fn law_window_rows(ps: Seq<(u64, Seq<char>)>, t0: u64, t1: u64, a: int, b: int)
    requires
        in_order(ps),
        t0 <= t1,
        0 <= a <= b <= ps.len(),
        forall|k: int| 0 <= k < a ==> (#[trigger] ps[k]).0 < t0,
        forall|k: int| a <= k < b ==> t0 <= (#[trigger] ps[k]).0 <= t1,
        forall|k: int| b <= k < ps.len() ==> (#[trigger] ps[k]).0 > t1,
    ensures
        a > 0 && (a == b || ps[a].0 > t0) ==> crate::waves::window_rows(ps, t0, t1) == seq![
            (t0, ps[a - 1].1),
        ] + ps.subrange(a, b),
        a == 0 || (a < b && ps[a].0 == t0) ==> crate::waves::window_rows(ps, t0, t1)
            == ps.subrange(a, b),
{
    lemma_stop(ps, 0, t0, t1);
    let n = crate::waves::window_stop(ps, 0, t0, t1);
    if n < b {
        assert(ps[n].0 > t1);
        assert(ps[n].0 <= t1);
    }
    if b < n {
        assert(ps[b].0 <= t1);
        assert(ps[b].0 > t1);
    }
    let seen = ps.take(b);
    assert forall|k: int| 0 <= k < seen.len() implies seen[k] == ps[k] by {}
    lemma_kept(seen, t0, a);
    assert(seen.skip(a) =~= ps.subrange(a, b));
    if a > 0 {
        assert(in_order(seen)) by {
            assert forall|i: int, j: int| 0 <= i < j < seen.len() implies (#[trigger] seen[i]).0 <= (
            #[trigger] seen[j]).0 by {
                assert(ps[i].0 <= ps[j].0);
            }
        }
        lemma_before(seen, t0, a - 1);
    } else {
        lemma_none_before(seen, t0);
    }
}

/// A window is kept inside the times of the recording, in order.
pub proof fn law_window(times: Seq<u64>, a: u64, b: u64)
    requires
        times.len() > 0,
        times[0] <= times.last(),
    ensures
        ({
            let (lo, hi) = (times[0], times.last());
            &&& lo <= a <= b <= hi ==> crate::waves::window_of(times, a, b) == (a, b)
            &&& lo <= b <= a <= hi ==> crate::waves::window_of(times, a, b) == (b, a)
            &&& a <= lo && hi <= b ==> crate::waves::window_of(times, a, b) == (lo, hi)
            &&& a < lo && b < lo ==> crate::waves::window_of(times, a, b) == (lo, lo)
            &&& a > hi && b > hi ==> crate::waves::window_of(times, a, b) == (hi, hi)
        }),
{
}

/// A change stands at the time that its index names; one beyond the times does not count.
pub proof fn law_change_times(changes: Seq<(u32, String)>, times: Seq<u64>, c: (u32, String))
    ensures
        c.0 < times.len() ==> crate::waves::timed(changes.push(c), times) == crate::waves::timed(
            changes,
            times,
        ).push((times[c.0 as int], c.1@)),
        c.0 >= times.len() ==> crate::waves::timed(changes.push(c), times) == crate::waves::timed(
            changes,
            times,
        ),
        crate::waves::timed(Seq::empty(), times).len() == 0,
{
    assert(changes.push(c).drop_last() =~= changes);
}

/// The letters are these words, in either case.
pub open spec fn in_either_case(s: Seq<char>, words: Seq<char>) -> bool {
    &&& s.len() == words.len()
    &&& forall|i: int|
        0 <= i < s.len() ==> (#[trigger] s[i] == words[i] || s[i] as u32 + 32 == words[i] as u32)
}

/// Kinds of edges by their names, in either case; any other name stands for any edge.
pub proof fn law_edge_kind_names(raw: Seq<char>)
    ensures
        crate::waves::edge_kind_of(raw) == EdgeKind::Rising <==> in_either_case(raw, "rising"@),
        crate::waves::edge_kind_of(raw) == EdgeKind::Falling <==> in_either_case(raw, "falling"@),
        crate::waves::edge_kind_of(raw) == EdgeKind::Any <==> !in_either_case(raw, "rising"@)
            && !in_either_case(raw, "falling"@),
{
    reveal_strlit("rising");
    reveal_strlit("falling");
    lemma_either_case(raw, "rising"@);
    lemma_either_case(raw, "falling"@);
    assert("rising"@.len() == 6 && "falling"@.len() == 7);
}

proof fn lemma_either_case(raw: Seq<char>, words: Seq<char>)
    requires
        forall|i: int| 0 <= i < words.len() ==> 'a' <= #[trigger] words[i] <= 'z',
    ensures
        crate::paths::lowered(raw) == words <==> in_either_case(raw, words),
{
    let low = crate::paths::lowered(raw);
    if low == words {
        assert forall|i: int| 0 <= i < raw.len() implies (#[trigger] raw[i] == words[i] || raw[i]
            as u32 + 32 == words[i] as u32) by {
            crate::project_laws::law_lower_case(raw, i);
        }
    }
    if in_either_case(raw, words) {
        assert forall|i: int| 0 <= i < raw.len() implies low[i] == words[i] by {
            crate::project_laws::law_lower_case(raw, i);
            assert('a' <= words[i] <= 'z');
            assert(raw[i] == words[i] || raw[i] as u32 + 32 == words[i] as u32);
        }
        assert(low =~= words);
    }
}

/// The width of a signal is that of its first declaration among the variables of a scope,
/// and those of inner scopes count where they stand.
pub proof fn law_declared_width(
    items: Seq<crate::waves::WaveItem>,
    x: crate::waves::WaveItem,
    want: u32,
)
    ensures
        crate::waves::items_width(Seq::empty(), want) is None,
        crate::waves::items_width(items, want) is Some ==> crate::waves::items_width(
            items.push(x),
            want,
        ) == crate::waves::items_width(items, want),
        crate::waves::items_width(items, want) is None ==> crate::waves::items_width(
            items.push(x),
            want,
        ) == match x {
            crate::waves::WaveItem::Var(v) => if v.signal_id == want {
                Some(
                    match v.bits {
                        Some(n) => n,
                        None => 1,
                    },
                )
            } else {
                None
            },
            crate::waves::WaveItem::Scope(inner) => crate::waves::items_width(inner.items@, want),
        },
{
    assert(items.push(x).drop_last() =~= items);
    reveal_with_fuel(crate::waves::items_width, 2);
}

proof fn lemma_collapsed_from(s: Seq<(u64, Seq<char>)>)
    ensures
        forall|i: int|
            0 <= i < crate::waves::collapsed(s).len() ==> s.contains(
                #[trigger] crate::waves::collapsed(s)[i],
            ),
    decreases s.len(),
{
    if s.len() > 0 {
        let front = s.drop_last();
        lemma_collapsed_from(front);
        let (x, y) = (crate::waves::collapsed(front), crate::waves::collapsed(s));
        assert forall|i: int| 0 <= i < y.len() implies s.contains(#[trigger] y[i]) by {
            if i < x.len() {
                assert(y[i] == x[i]);
                let k = choose|k: int| 0 <= k < front.len() && front[k] == x[i];
                assert(s[k] == y[i]);
            } else {
                assert(y[i] == s[s.len() - 1]);
            }
        }
    }
}

/// Where a window has more rows than are asked for, it is sampled at that many times with
/// equal steps from its start to its end, and each row holds the value of the signal then.
pub proof fn law_samples(rows: Seq<(u64, Seq<char>)>, max: nat, t0: u64, t1: u64, i: int)
    requires
        t0 < t1,
        1 < max < rows.len(),
        0 <= i < crate::waves::thinned(rows, max, t0, t1).len(),
    ensures
        ({
            let r = crate::waves::thinned(rows, max, t0, t1)[i];
            &&& r.1 == crate::waves::value_at(rows, r.0)
            &&& exists|k: int| 0 <= k < max && #[trigger] is_sample_time(r.0, k, max, t0, t1)
        }),
{
    let all = crate::waves::samples(rows, max, max as int, t0, t1);
    lemma_collapsed_from(all);
    let r = crate::waves::thinned(rows, max, t0, t1)[i];
    assert(all.contains(r));
    let k = choose|k: int| 0 <= k < all.len() && all[k] == r;
    let (span, steps) = (t1 - t0, max - 1);
    let q = (span * k) / steps;
    vstd::arithmetic::div_mod::lemma_fundamental_div_mod(span * k, steps);
    let rem = (span * k) % steps;
    assert(0 <= rem < steps) by {
        vstd::arithmetic::div_mod::lemma_mod_bound(span * k, steps);
    }
    assert(q <= span) by (nonlinear_arith)
        requires
            span * k == steps * q + rem,
            0 <= k <= steps,
            steps > 0,
            rem >= 0,
            span > 0,
    ;
    assert(q * steps == steps * q) by (nonlinear_arith);
    assert((q + 1) * steps == steps * q + steps) by (nonlinear_arith);
    assert(q >= 0) by (nonlinear_arith)
        requires
            span * k == steps * q + rem,
            0 <= k,
            steps > 0,
            rem < steps,
            span > 0,
    ;
    assert(is_sample_time(r.0, k, max, t0, t1));
}

/// Time `k` of so many with equal steps from `t0` to `t1`, rounded down.
pub open spec fn is_sample_time(t: u64, k: int, max: nat, t0: u64, t1: u64) -> bool {
    (t - t0) * (max - 1) <= (t1 - t0) * k < (t - t0 + 1) * (max - 1)
}

/// The scopes and the variables among the items of a scope, each in their order.
pub proof fn law_scope_contents(
    items: Seq<crate::waves::WaveItem>,
    x: crate::waves::WaveItem,
)
    ensures
        crate::waves::scopes_in(Seq::empty()).len() == 0,
        crate::waves::vars_in(Seq::empty()).len() == 0,
        x matches crate::waves::WaveItem::Scope(inner) ==> crate::waves::scopes_in(items.push(x))
            == crate::waves::scopes_in(items).push(inner) && crate::waves::vars_in(items.push(x))
            == crate::waves::vars_in(items),
        x matches crate::waves::WaveItem::Var(v) ==> crate::waves::vars_in(items.push(x))
            == crate::waves::vars_in(items).push(v) && crate::waves::scopes_in(items.push(x))
            == crate::waves::scopes_in(items),
{
    assert(items.push(x).drop_last() =~= items);
}

/// The first scope of a file that declares a signal gives its width.
pub proof fn law_width_in_file(
    scopes: Seq<crate::waves::WaveScope>,
    x: crate::waves::WaveScope,
    want: u32,
)
    ensures
        crate::waves::scopes_width(Seq::empty(), want) is None,
        crate::waves::scopes_width(scopes, want) is Some ==> crate::waves::scopes_width(
            scopes.push(x),
            want,
        ) == crate::waves::scopes_width(scopes, want),
        crate::waves::scopes_width(scopes, want) is None ==> crate::waves::scopes_width(
            scopes.push(x),
            want,
        ) == crate::waves::items_width(x.items@, want),
{
    assert(scopes.push(x).drop_last() =~= scopes);
}

} // verus!
