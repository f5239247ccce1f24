//! Waveforms: edges of a signal, and the part of a waveform that is shown.
use crate::paths::lower_text;
use crate::text::{chars_of, is_whitespace, str_eq, string_from};
use vstd::prelude::*;

verus! {

#[derive(Debug, Clone, Copy, PartialEq, Eq, Structural)]
pub enum EdgeKind {
    Any,
    Rising,
    Falling,
}

/// The kind of edge that a word stands for, in any case; every edge for another word.
pub open spec fn edge_kind_of(raw: Seq<char>) -> EdgeKind {
    if crate::paths::lowered(raw) == "rising"@ {
        EdgeKind::Rising
    } else if crate::paths::lowered(raw) == "falling"@ {
        EdgeKind::Falling
    } else {
        EdgeKind::Any
    }
}

pub fn parse_edge_kind(raw: &str) -> (r: EdgeKind)
    ensures
        r == edge_kind_of(raw@),
{
    let low = lower_text(raw);
    if str_eq(low.as_str(), "rising") {
        EdgeKind::Rising
    } else if str_eq(low.as_str(), "falling") {
        EdgeKind::Falling
    } else {
        EdgeKind::Any
    }
}

/// `s` without white space at its start.
pub open spec fn without_head_space(s: Seq<char>) -> Seq<char>
    decreases s.len(),
{
    if s.len() > 0 && crate::text::is_space(s[0]) {
        without_head_space(s.drop_first())
    } else {
        s
    }
}

/// `s` without white space at its end.
pub open spec fn without_tail_space(s: Seq<char>) -> Seq<char>
    decreases s.len(),
{
    if s.len() > 0 && crate::text::is_space(s.last()) {
        without_tail_space(s.drop_last())
    } else {
        s
    }
}

/// `s` without white space at its ends.
pub open spec fn trimmed(s: Seq<char>) -> Seq<char> {
    without_tail_space(without_head_space(s))
}

fn trim(s: &str) -> (r: String)
    ensures
        r@ == trimmed(s@),
{
    let chars = chars_of(s);
    let mut lo: usize = 0;
    assert(chars@.skip(0) == chars@);
    while lo < chars.len() && is_whitespace(chars[lo])
        invariant
            lo <= chars@.len(),
            without_head_space(chars@.skip(lo as int)) == without_head_space(chars@),
        decreases chars@.len() - lo,
    {
        assert(chars@.skip(lo as int).drop_first() == chars@.skip(lo + 1));
        lo = lo + 1;
    }
    let ghost head = chars@.skip(lo as int);
    let mut hi: usize = chars.len();
    assert(chars@.subrange(lo as int, hi as int) =~= head);
    while hi > lo && is_whitespace(chars[hi - 1])
        invariant
            lo <= hi <= chars@.len(),
            without_tail_space(chars@.subrange(lo as int, hi as int)) == without_tail_space(head),
        decreases hi - lo,
    {
        assert(chars@.subrange(lo as int, hi as int).drop_last() == chars@.subrange(
            lo as int,
            hi - 1,
        ));
        hi = hi - 1;
    }
    string_from(chars.as_slice(), lo, hi)
}

/// A nonempty text of zeros and ones.
pub open spec fn is_bits(s: Seq<char>) -> bool {
    s.len() > 0 && forall|i: int| 0 <= i < s.len() ==> (#[trigger] s[i] == '0' || s[i] == '1')
}

fn all_bits(chars: &Vec<char>) -> (r: bool)
    ensures
        r == is_bits(chars@),
{
    let mut i: usize = 0;
    while i < chars.len()
        invariant
            i <= chars@.len(),
            forall|j: int| 0 <= j < i ==> (#[trigger] chars@[j] == '0' || chars@[j] == '1'),
        decreases chars@.len() - i,
    {
        if chars[i] != '0' && chars[i] != '1' {
            return false;
        }
        i = i + 1;
    }
    chars.len() > 0
}

/// Value of a text of zeros and ones, the most significant first.
pub open spec fn bits_value(s: Seq<char>) -> nat
    decreases s.len(),
{
    if s.len() == 0 {
        0
    } else {
        2 * bits_value(s.drop_last()) + if s.last() == '1' {
            1nat
        } else {
            0nat
        }
    }
}

/// Value of a binary text with white space around it, where 128 bits hold it.
pub open spec fn binary_value(s: Seq<char>) -> Option<u128> {
    let t = trimmed(s);
    if is_bits(t) && bits_value(t) <= u128::MAX {
        Some(bits_value(t) as u128)
    } else {
        None
    }
}

proof fn lemma_bits_prefix(s: Seq<char>, k: int)
    requires
        0 <= k <= s.len(),
    ensures
        bits_value(s.take(k)) <= bits_value(s),
    decreases s.len(),
{
    if k == s.len() {
        assert(s.take(k) == s);
    } else {
        lemma_bits_prefix(s.drop_last(), k);
        assert(s.drop_last().take(k) == s.take(k));
    }
}

pub fn parse_bin_u128(s: &str) -> (r: Option<u128>)
    ensures
        r == binary_value(s@),
{
    let t = trim(s);
    let chars = chars_of(t.as_str());
    if !all_bits(&chars) {
        return None;
    }
    let mut v: u128 = 0;
    let mut i: usize = 0;
    while i < chars.len()
        invariant
            i <= chars@.len(),
            chars@ == trimmed(s@),
            is_bits(chars@),
            v == bits_value(chars@.take(i as int)),
        decreases chars@.len() - i,
    {
        assert(chars@.take(i + 1).drop_last() == chars@.take(i as int));
        assert(chars@.take(i + 1).last() == chars@[i as int]);
        let bit: u128 = if chars[i] == '1' {
            1
        } else {
            0
        };
        if v > 0x7FFF_FFFF_FFFF_FFFF_FFFF_FFFF_FFFF_FFFFu128 {
            proof {
                lemma_bits_prefix(chars@, i + 1);
            }
            return None;
        }
        v = 2 * v + bit;
        i = i + 1;
    }
    assert(chars@.take(i as int) == chars@);
    Some(v)
}

/// The bit that a text stands for.
pub open spec fn bit_value(s: Seq<char>) -> Option<u8> {
    if trimmed(s) == seq!['0'] {
        Some(0)
    } else if trimmed(s) == seq!['1'] {
        Some(1)
    } else {
        None
    }
}

pub fn bit01(s: &str) -> (r: Option<u8>)
    ensures
        r == bit_value(s@),
{
    let t = trim(s);
    let chars = chars_of(t.as_str());
    if chars.len() == 1 && chars[0] == '0' {
        assert(chars@ =~= seq!['0']);
        Some(0)
    } else if chars.len() == 1 && chars[0] == '1' {
        assert(chars@ =~= seq!['1']);
        assert(chars@[0] != '0');
        Some(1)
    } else {
        proof {
            if trimmed(s@) == seq!['0'] {
                assert(chars@[0] == '0' && chars@.len() == 1);
            }
            if trimmed(s@) == seq!['1'] {
                assert(chars@[0] == '1' && chars@.len() == 1);
            }
        }
        None
    }
}

/// The change from `prev` to `new` is an edge of the kind. A bus of several bits rises where
/// its number grows.
pub open spec fn is_edge(prev: Seq<char>, new: Seq<char>, bits: u32, kind: EdgeKind) -> bool {
    prev != new && match kind {
        EdgeKind::Any => true,
        EdgeKind::Rising => if bits <= 1 {
            bit_value(prev) == Some(0u8) && bit_value(new) == Some(1u8)
        } else {
            match (binary_value(prev), binary_value(new)) {
                (Some(a), Some(b)) => b > a,
                _ => false,
            }
        },
        EdgeKind::Falling => if bits <= 1 {
            bit_value(prev) == Some(1u8) && bit_value(new) == Some(0u8)
        } else {
            match (binary_value(prev), binary_value(new)) {
                (Some(a), Some(b)) => b < a,
                _ => false,
            }
        },
    }
}

fn is_bit(s: &str, b: u8) -> (r: bool)
    ensures
        r == (bit_value(s@) == Some(b)),
{
    match bit01(s) {
        Some(x) => x == b,
        None => false,
    }
}

pub fn edge_matches(prev: &str, new: &str, bits: u32, kind: EdgeKind) -> (r: bool)
    ensures
        r == is_edge(prev@, new@, bits, kind),
{
    if str_eq(prev, new) {
        return false;
    }
    match kind {
        EdgeKind::Any => true,
        EdgeKind::Rising => if bits <= 1 {
            is_bit(prev, 0) && is_bit(new, 1)
        } else {
            match (parse_bin_u128(prev), parse_bin_u128(new)) {
                (Some(a), Some(b)) => b > a,
                _ => false,
            }
        },
        EdgeKind::Falling => if bits <= 1 {
            is_bit(prev, 1) && is_bit(new, 0)
        } else {
            match (parse_bin_u128(prev), parse_bin_u128(new)) {
                (Some(a), Some(b)) => b < a,
                _ => false,
            }
        },
    }
}

/// A binary text with exactly `width` bits: its last ones, or with zeros in front.
pub open spec fn bus_bits(s: Seq<char>, width: u32) -> Option<Seq<char>> {
    let t = trimmed(s);
    if !is_bits(t) {
        None
    } else if t.len() >= width {
        Some(t.skip(t.len() - width))
    } else {
        Some(crate::number::zero_padded(t, width as nat))
    }
}

pub fn normalize_bus_binary_msb(s: &str, width: u32) -> (r: Option<String>)
    ensures
        crate::sim_session::string_of(r) == bus_bits(s@, width),
{
    let t = trim(s);
    let chars = chars_of(t.as_str());
    if !all_bits(&chars) {
        return None;
    }
    let w = width as usize;
    if chars.len() >= w {
        let tail = string_from(chars.as_slice(), chars.len() - w, chars.len());
        assert(tail@ =~= t@.skip(t@.len() - width));
        Some(tail)
    } else {
        Some(crate::number::pad_zeros(t.as_str(), w))
    }
}

/// Bit `bit_lsb` of a text of `width` bits, by the bytes of the text.
pub open spec fn bus_bit(bits: Seq<char>, bit_lsb: u32, width: u32) -> Option<u8> {
    let bytes = vstd::utf8::encode_utf8(bits);
    let i = width - 1 - bit_lsb;
    if 0 <= i < bytes.len() {
        if bytes[i] == 0x30 {
            Some(0)
        } else if bytes[i] == 0x31 {
            Some(1)
        } else {
            None
        }
    } else {
        None
    }
}

pub fn bit_at_lsb_index(bin_msb: &str, bit_lsb: u32, width: u32) -> (r: Option<u8>)
    ensures
        r == bus_bit(bin_msb@, bit_lsb, width),
{
    if width == 0 || bit_lsb > width - 1 {
        return None;
    }
    let i: usize = (width - 1 - bit_lsb) as usize;
    let bytes = bin_msb.as_bytes();
    if i >= bytes.len() {
        None
    } else if bytes[i] == 0x30 {
        Some(0)
    } else if bytes[i] == 0x31 {
        Some(1)
    } else {
        None
    }
}

/// One bit of a bus value.
pub open spec fn value_bit(s: Seq<char>, width: u32, bit_lsb: u32) -> Option<u8> {
    match bus_bits(s, width) {
        Some(b) => bus_bit(b, bit_lsb, width),
        None => None,
    }
}

/// The change is an edge of the kind in one bit of a bus.
pub open spec fn is_bit_edge(
    prev: Seq<char>,
    new: Seq<char>,
    width: u32,
    bit_lsb: u32,
    kind: EdgeKind,
) -> bool {
    match (value_bit(prev, width, bit_lsb), value_bit(new, width, bit_lsb)) {
        (Some(a), Some(b)) => a != b && match kind {
            EdgeKind::Any => true,
            EdgeKind::Rising => a == 0 && b == 1,
            EdgeKind::Falling => a == 1 && b == 0,
        },
        _ => false,
    }
}

fn bit_of_value(s: &str, width: u32, bit_lsb: u32) -> (r: Option<u8>)
    ensures
        r == value_bit(s@, width, bit_lsb),
{
    match normalize_bus_binary_msb(s, width) {
        Some(b) => bit_at_lsb_index(b.as_str(), bit_lsb, width),
        None => None,
    }
}

pub fn edge_matches_lsb_bit(prev: &str, new: &str, width: u32, bit_lsb: u32, kind: EdgeKind) -> (r:
    bool)
    ensures
        r == is_bit_edge(prev@, new@, width, bit_lsb, kind),
{
    match (bit_of_value(prev, width, bit_lsb), bit_of_value(new, width, bit_lsb)) {
        (Some(a), Some(b)) => a != b && match kind {
            EdgeKind::Any => true,
            EdgeKind::Rising => a == 0 && b == 1,
            EdgeKind::Falling => a == 1 && b == 0,
        },
        _ => false,
    }
}

/// A rising edge is no falling one, and either is an edge.
pub proof fn law_edge_kinds(prev: Seq<char>, new: Seq<char>, bits: u32)
    ensures
        !(is_edge(prev, new, bits, EdgeKind::Rising) && is_edge(prev, new, bits, EdgeKind::Falling)),
        is_edge(prev, new, bits, EdgeKind::Rising) ==> is_edge(prev, new, bits, EdgeKind::Any),
        is_edge(prev, new, bits, EdgeKind::Falling) ==> is_edge(prev, new, bits, EdgeKind::Any),
        is_edge(prev, new, bits, EdgeKind::Rising) == is_edge(new, prev, bits, EdgeKind::Falling),
{
}

/// Times and values of a signal's changes.
pub open spec fn points_view(s: Seq<(u64, String)>) -> Seq<(u64, Seq<char>)> {
    Seq::new(s.len(), |i: int| (s[i].0, s[i].1@))
}

/// The change to point `i` is an edge: of one bit where one of a bus is asked for.
pub open spec fn edge_at(
    ps: Seq<(u64, Seq<char>)>,
    i: int,
    bits: u32,
    bit_lsb: Option<u32>,
    kind: EdgeKind,
) -> bool {
    match bit_lsb {
        Some(b) if bits > 1 => is_bit_edge(ps[i - 1].1, ps[i].1, bits, b, kind),
        _ => is_edge(ps[i - 1].1, ps[i].1, bits, kind),
    }
}

/// First edge from point `i` on that is after `from`.
pub open spec fn edge_after(
    ps: Seq<(u64, Seq<char>)>,
    i: int,
    from: u64,
    bits: u32,
    bit_lsb: Option<u32>,
    kind: EdgeKind,
) -> Option<u64>
    decreases ps.len() - i,
{
    if i >= ps.len() {
        None
    } else if ps[i].0 > from && edge_at(ps, i, bits, bit_lsb, kind) {
        Some(ps[i].0)
    } else {
        edge_after(ps, i + 1, from, bits, bit_lsb, kind)
    }
}

/// Last edge among the first `n` points that is before `from`.
pub open spec fn edge_before(
    ps: Seq<(u64, Seq<char>)>,
    n: int,
    from: u64,
    bits: u32,
    bit_lsb: Option<u32>,
    kind: EdgeKind,
) -> Option<u64>
    decreases n,
{
    if n <= 1 {
        None
    } else if ps[n - 1].0 < from && edge_at(ps, n - 1, bits, bit_lsb, kind) {
        Some(ps[n - 1].0)
    } else {
        edge_before(ps, n - 1, from, bits, bit_lsb, kind)
    }
}

fn is_edge_at(points: &[(u64, String)], i: usize, bits: u32, bit_lsb: Option<u32>, kind: EdgeKind) -> (r:
    bool)
    requires
        1 <= i < points@.len(),
    ensures
        r == edge_at(points_view(points@), i as int, bits, bit_lsb, kind),
{
    let ghost ps = points_view(points@);
    assert(ps[i as int] == (points@[i as int].0, points@[i as int].1@));
    assert(ps[i - 1] == (points@[i - 1].0, points@[i - 1].1@));
    let prev = points[i - 1].1.as_str();
    let new = points[i].1.as_str();
    match bit_lsb {
        Some(b) => if bits > 1 {
            edge_matches_lsb_bit(prev, new, bits, b, kind)
        } else {
            edge_matches(prev, new, bits, kind)
        },
        None => edge_matches(prev, new, bits, kind),
    }
}

/// The next edge after a time, or the last before it.
pub fn find_edge(
    points: &[(u64, String)],
    from_time: u64,
    next: bool,
    kind: EdgeKind,
    bit_lsb: Option<u32>,
    bits: u32,
) -> (r: Option<u64>)
    ensures
        r == if next {
            edge_after(points_view(points@), 1, from_time, bits, bit_lsb, kind)
        } else {
            edge_before(
                points_view(points@),
                points@.len() as int,
                from_time,
                bits,
                bit_lsb,
                kind,
            )
        },
{
    let ghost ps = points_view(points@);
    if next {
        let mut i: usize = 1;
        while i < points.len()
            invariant
                1 <= i,
                next,
                ps == points_view(points@),
                edge_after(ps, i as int, from_time, bits, bit_lsb, kind) == edge_after(
                    ps,
                    1,
                    from_time,
                    bits,
                    bit_lsb,
                    kind,
                ),
            decreases points@.len() - i,
        {
            if points[i].0 > from_time && is_edge_at(points, i, bits, bit_lsb, kind) {
                return Some(points[i].0);
            }
            i = i + 1;
        }
        None
    } else {
        let mut n: usize = points.len();
        while n > 1
            invariant
                n <= points@.len(),
                !next,
                ps == points_view(points@),
                edge_before(ps, n as int, from_time, bits, bit_lsb, kind) == edge_before(
                    ps,
                    points@.len() as int,
                    from_time,
                    bits,
                    bit_lsb,
                    kind,
                ),
            decreases n,
        {
            if points[n - 1].0 < from_time && is_edge_at(points, n - 1, bits, bit_lsb, kind) {
                return Some(points[n - 1].0);
            }
            n = n - 1;
        }
        None
    }
}

/// The times and values of changes that refer to a time table; those beyond it are left
/// out.
pub open spec fn timed(changes: Seq<(u32, String)>, times: Seq<u64>) -> Seq<(u64, Seq<char>)>
    decreases changes.len(),
{
    if changes.len() == 0 {
        Seq::empty()
    } else {
        let before = timed(changes.drop_last(), times);
        let c = changes.last();
        if c.0 < times.len() {
            before.push((times[c.0 as int], c.1@))
        } else {
            before
        }
    }
}

/// Looks the times of changes up.
pub fn change_points(changes: &[(u32, String)], times: &[u64]) -> (r: Vec<(u64, String)>)
    ensures
        points_view(r@) == timed(changes@, times@),
{
    let mut out: Vec<(u64, String)> = Vec::new();
    assert(points_view(out@) =~= Seq::empty());
    let mut i: usize = 0;
    while i < changes.len()
        invariant
            i <= changes@.len(),
            points_view(out@) == timed(changes@.take(i as int), times@),
        decreases changes@.len() - i,
    {
        let ghost before = points_view(out@);
        assert(changes@.take(i + 1).drop_last() == changes@.take(i as int));
        assert(changes@.take(i + 1).last() == changes@[i as int]);
        let at = changes[i].0 as usize;
        if at < times.len() {
            let value = changes[i].1.clone();
            out.push((times[at], value));
            assert(points_view(out@) =~= before.push((times@[at as int], value@)));
        }
        i = i + 1;
    }
    assert(changes@.take(i as int) == changes@);
    out
}

/// Times that a waveform spans; none where it has no time.
pub open spec fn time_range(times: Seq<u64>) -> (u64, u64) {
    if times.len() == 0 {
        (0, 0)
    } else {
        (times[0], times.last())
    }
}

/// `t`, moved into a range.
pub open spec fn clamped(t: u64, lo: u64, hi: u64) -> u64 {
    if t < lo {
        lo
    } else if t > hi {
        hi
    } else {
        t
    }
}

/// The asked window, in order, moved into the times of the waveform.
pub open spec fn window_of(times: Seq<u64>, a: u64, b: u64) -> (u64, u64) {
    let (lo, hi) = time_range(times);
    if a <= b {
        (clamped(a, lo, hi), clamped(b, lo, hi))
    } else {
        (clamped(b, lo, hi), clamped(a, lo, hi))
    }
}

/// First and last time of a time table.
pub fn time_bounds(times: &[u64]) -> (r: (u64, u64))
    ensures
        r == time_range(times@),
{
    if times.len() == 0 {
        (0, 0)
    } else {
        (times[0], times[times.len() - 1])
    }
}

fn clamp_time(t: u64, lo: u64, hi: u64) -> (r: u64)
    ensures
        r == clamped(t, lo, hi),
{
    if t < lo {
        lo
    } else if t > hi {
        hi
    } else {
        t
    }
}

/// The window that is shown for two asked times.
pub fn query_window(times: &[u64], a: u64, b: u64) -> (r: (u64, u64))
    ensures
        r == window_of(times@, a, b),
{
    let (lo, hi) = time_bounds(times);
    if a <= b {
        (clamp_time(a, lo, hi), clamp_time(b, lo, hi))
    } else {
        (clamp_time(b, lo, hi), clamp_time(a, lo, hi))
    }
}

/// A window of an ordered time table is ordered and lies within it.
pub proof fn law_window_is_inside(times: Seq<u64>, a: u64, b: u64)
    requires
        time_range(times).0 <= time_range(times).1,
    ensures
        time_range(times).0 <= window_of(times, a, b).0 <= window_of(times, a, b).1 <= time_range(
            times,
        ).1,
        window_of(times, a, b) == window_of(times, b, a),
{
}

/// The first point from `i` on that is after the window.
pub open spec fn window_stop(ps: Seq<(u64, Seq<char>)>, i: int, t0: u64, t1: u64) -> int
    decreases ps.len() - i,
{
    if i >= ps.len() || (t0 <= ps[i].0 && t1 < ps[i].0) {
        i
    } else {
        window_stop(ps, i + 1, t0, t1)
    }
}

/// The points in the window that starts at `t0`.
pub open spec fn points_from(ps: Seq<(u64, Seq<char>)>, t0: u64) -> Seq<(u64, Seq<char>)> {
    ps.filter(|p: (u64, Seq<char>)| t0 <= p.0)
}

/// The value that the signal has when the window starts.
pub open spec fn value_before(ps: Seq<(u64, Seq<char>)>, t0: u64) -> Option<Seq<char>>
    decreases ps.len(),
{
    if ps.len() == 0 {
        None
    } else if ps.last().0 < t0 {
        Some(ps.last().1)
    } else {
        value_before(ps.drop_last(), t0)
    }
}

/// What is shown of a waveform between two times: its changes there, after the value that it
/// starts with.
pub open spec fn window_rows(ps: Seq<(u64, Seq<char>)>, t0: u64, t1: u64) -> Seq<
    (u64, Seq<char>),
> {
    let seen = ps.take(window_stop(ps, 0, t0, t1));
    let inside = points_from(seen, t0);
    match value_before(seen, t0) {
        Some(v) if inside.len() == 0 || inside[0].0 > t0 => seq![(t0, v)] + inside,
        _ => inside,
    }
}

fn rows_in_window(points: &[(u64, String)], t0: u64, t1: u64) -> (r: Vec<(u64, String)>)
    ensures
        points_view(r@) == window_rows(points_view(points@), t0, t1),
{
    let ghost ps = points_view(points@);
    let mut inside: Vec<(u64, String)> = Vec::new();
    let mut before: Option<String> = None;
    let mut i: usize = 0;
    proof {
        reveal(Seq::filter);
        assert(points_view(inside@) =~= Seq::empty());
        assert(ps.take(0) =~= Seq::empty());
    }
    while i < points.len() && !(t0 <= points[i].0 && t1 < points[i].0)
        invariant
            i <= points@.len(),
            ps == points_view(points@),
            window_stop(ps, i as int, t0, t1) == window_stop(ps, 0, t0, t1),
            points_view(inside@) == points_from(ps.take(i as int), t0),
            crate::sim_session::string_of(before) == value_before(ps.take(i as int), t0),
        decreases points@.len() - i,
    {
        let ghost had = points_view(inside@);
        proof {
            reveal(Seq::filter);
            assert(ps.take(i + 1).drop_last() == ps.take(i as int));
            assert(ps.take(i + 1).last() == ps[i as int]);
            assert(ps[i as int] == (points@[i as int].0, points@[i as int].1@));
        }
        let value = points[i].1.clone();
        if points[i].0 < t0 {
            before = Some(value);
        } else {
            inside.push((points[i].0, value));
            assert(points_view(inside@) =~= had.push(ps[i as int]));
        }
        i = i + 1;
    }
    assert(window_stop(ps, 0, t0, t1) == i);
    let ghost had = points_view(inside@);
    let late = if inside.len() == 0 {
        true
    } else {
        inside[0].0 > t0
    };
    match before {
        Some(v) => {
            if late {
                let ghost text = v@;
                inside.insert(0, (t0, v));
                assert(points_view(inside@) =~= seq![(t0, text)] + had);
            }
        },
        None => {},
    }
    inside
}

/// Number of leading rows up to a time.
pub open spec fn rows_up_to(rows: Seq<(u64, Seq<char>)>, i: int, t: u64) -> int
    decreases rows.len() - i,
{
    if i >= rows.len() || rows[i].0 > t {
        i
    } else {
        rows_up_to(rows, i + 1, t)
    }
}

/// The value at a time; before the first row, that of the first row.
pub open spec fn value_at(rows: Seq<(u64, Seq<char>)>, t: u64) -> Seq<char> {
    let n = rows_up_to(rows, 0, t);
    if n == 0 {
        rows[0].1
    } else {
        rows[n - 1].1
    }
}

/// Time of sample `k` of `max` that are spread evenly from `t0` to `t1`; a single one is at
/// `t0`.
pub open spec fn sample_time(k: int, max: int, t0: u64, t1: u64) -> u64 {
    let span: int = if t1 > t0 {
        t1 - t0
    } else {
        1
    };
    let steps: int = if max > 1 {
        max - 1
    } else {
        1
    };
    let t = t0 + (span * k) / steps;
    if t > u64::MAX {
        u64::MAX
    } else {
        t as u64
    }
}

/// The first `n` samples of `max`.
pub open spec fn samples(rows: Seq<(u64, Seq<char>)>, n: nat, max: int, t0: u64, t1: u64) -> Seq<
    (u64, Seq<char>),
> {
    Seq::new(
        n,
        |k: int| (sample_time(k, max, t0, t1), value_at(rows, sample_time(k, max, t0, t1))),
    )
}

/// Rows without those that repeat the value before them.
pub open spec fn collapsed(s: Seq<(u64, Seq<char>)>) -> Seq<(u64, Seq<char>)>
    decreases s.len(),
{
    if s.len() == 0 {
        s
    } else {
        let b = collapsed(s.drop_last());
        if b.len() > 0 && b.last().1 == s.last().1 {
            b
        } else {
            b.push(s.last())
        }
    }
}

/// Rows, thinned to `max` where there are more.
pub open spec fn thinned(rows: Seq<(u64, Seq<char>)>, max: nat, t0: u64, t1: u64) -> Seq<
    (u64, Seq<char>),
> {
    if rows.len() <= max {
        rows
    } else {
        collapsed(samples(rows, max, max as int, t0, t1))
    }
}

proof fn lemma_sample_bounds(span: int, k: int, denom: int)
    by (nonlinear_arith)
    requires
        0 <= k <= denom,
        0 < denom,
        0 <= span,
    ensures
        0 <= (span * k) / denom <= span,
        0 <= span * k,
        span * k <= span * denom,
{
}

proof fn lemma_sample_order(span: int, a: int, b: int, denom: int)
    requires
        0 <= a <= b,
        0 < denom,
        0 <= span,
    ensures
        (span * a) / denom <= (span * b) / denom,
{
    assert(span * a <= span * b) by (nonlinear_arith)
        requires
            a <= b,
            0 <= span,
    ;
    vstd::arithmetic::div_mod::lemma_div_is_ordered(span * a, span * b, denom);
}

proof fn lemma_rows_up_to(rows: Seq<(u64, Seq<char>)>, i: int, t: u64, u: u64)
    requires
        0 <= i <= rows.len(),
        t <= u,
    ensures
        i <= rows_up_to(rows, i, t) <= rows.len(),
        rows_up_to(rows, rows_up_to(rows, i, t), u) == rows_up_to(rows, i, u),
    decreases rows.len() - i,
{
    if i < rows.len() && rows[i].0 <= t {
        lemma_rows_up_to(rows, i + 1, t, u);
    }
}

/// Copies rows.
fn copy_rows(rows: &[(u64, String)]) -> (r: Vec<(u64, String)>)
    ensures
        points_view(r@) == points_view(rows@),
{
    let mut out: Vec<(u64, String)> = Vec::new();
    let mut i: usize = 0;
    while i < rows.len()
        invariant
            i <= rows@.len(),
            points_view(out@) == points_view(rows@).take(i as int),
        decreases rows@.len() - i,
    {
        let ghost had = points_view(out@);
        let value = rows[i].1.clone();
        out.push((rows[i].0, value));
        assert(points_view(out@) =~= had.push(points_view(rows@)[i as int]));
        assert(points_view(rows@).take(i + 1) =~= had.push(points_view(rows@)[i as int]));
        i = i + 1;
    }
    assert(points_view(rows@).take(i as int) =~= points_view(rows@));
    out
}

/// Thins rows to at most `max` samples that are spread evenly over the window.
pub fn subsample_uniform(rows: &[(u64, String)], max: usize, t_start: u64, t_end: u64) -> (r: Vec<
    (u64, String),
>)
    ensures
        points_view(r@) == thinned(points_view(rows@), max as nat, t_start, t_end),
{
    if rows.len() <= max {
        return copy_rows(rows);
    }
    let ghost rs = points_view(rows@);
    let span: u64 = if t_end > t_start {
        t_end - t_start
    } else {
        1
    };
    let denom: usize = if max > 1 {
        max - 1
    } else {
        1
    };
    let mut out: Vec<(u64, String)> = Vec::new();
    let mut n: usize = 0;
    let mut k: usize = 0;
    let ghost mut at: u64 = 0;
    proof {
        assert(points_view(out@) =~= collapsed(samples(rs, 0, max as int, t_start, t_end)));
        lemma_rows_up_to(rs, 0, 0, 0);
    }
    while n < rows.len() && rows[n].0 == 0
        invariant
            n <= rows@.len(),
            rs == points_view(rows@),
            rows_up_to(rs, n as int, 0) == rows_up_to(rs, 0, 0),
        decreases rows@.len() - n,
    {
        n = n + 1;
    }
    while k < max
        invariant
            k <= max,
            denom == if max > 1 {
                (max - 1) as usize
            } else {
                1
            },
            0 < rows@.len(),
            n <= rows@.len(),
            rs == points_view(rows@),
            span == if t_end > t_start {
                (t_end - t_start) as u64
            } else {
                1
            },
            n == rows_up_to(rs, 0, at),
            k > 0 ==> at == sample_time(k - 1, max as int, t_start, t_end),
            k == 0 ==> at == 0,
            points_view(out@) == collapsed(samples(rs, k as nat, max as int, t_start, t_end)),
        decreases max - k,
    {
        proof {
            lemma_sample_bounds(span as int, k as int, denom as int);
            assert(span * k <= u64::MAX * u64::MAX) by (nonlinear_arith)
                requires
                    0 <= span <= u64::MAX,
                    0 <= k <= u64::MAX,
            ;
        }
        let off: u64 = ((span as u128) * (k as u128) / (denom as u128)) as u64;
        let t: u64 = t_start.saturating_add(off);
        proof {
            assert(t == sample_time(k as int, max as int, t_start, t_end));
            if k > 0 {
                lemma_sample_order(span as int, k - 1, k as int, denom as int);
            }
            assert(at <= t);
            lemma_rows_up_to(rs, 0, at, t);
            lemma_rows_up_to(rs, 0, t, t);
        }
        while n < rows.len() && rows[n].0 <= t
            invariant
                n <= rows@.len(),
                rs == points_view(rows@),
                rows_up_to(rs, n as int, t) == rows_up_to(rs, 0, t),
            decreases rows@.len() - n,
        {
            n = n + 1;
        }
        let value = if n == 0 {
            rows[0].1.clone()
        } else {
            rows[n - 1].1.clone()
        };
        let ghost all = samples(rs, (k + 1) as nat, max as int, t_start, t_end);
        let ghost had = points_view(out@);
        proof {
            assert(value@ == value_at(rs, t));
            assert(all.drop_last() =~= samples(rs, k as nat, max as int, t_start, t_end));
            assert(all.last() == (t, value@));
            at = t;
        }
        let last = out.len();
        let repeats = if last == 0 {
            false
        } else {
            assert(had[last - 1] == (out@[last - 1].0, out@[last - 1].1@));
            str_eq(out[last - 1].1.as_str(), value.as_str())
        };
        if !repeats {
            let ghost text = value@;
            out.push((t, value));
            assert(points_view(out@) =~= had.push((t, text)));
        }
        k = k + 1;
    }
    out
}

/// Cap on the rows of a signal: what was asked for, if anything was.
pub open spec fn row_cap(asked: Option<usize>) -> usize {
    match asked {
        Some(n) => n,
        None => 65536,
    }
}

/// What a query shows of a signal between two times, thinned to its cap.
pub fn query_rows(points: &[(u64, String)], t_start: u64, t_end: u64, asked: Option<usize>) -> (r:
    Vec<(u64, String)>)
    ensures
        points_view(r@) == thinned(
            window_rows(points_view(points@), t_start, t_end),
            row_cap(asked) as nat,
            t_start,
            t_end,
        ),
{
    let cap: usize = match asked {
        Some(n) => n,
        None => 65536,
    };
    let rows = rows_in_window(points, t_start, t_end);
    subsample_uniform(rows.as_slice(), cap, t_start, t_end)
}

proof fn lemma_collapsed(s: Seq<(u64, Seq<char>)>)
    ensures
        collapsed(s).len() <= s.len(),
        s.len() > 0 ==> collapsed(s).len() > 0 && collapsed(s)[0] == s[0] && collapsed(s).last().1
            == s.last().1,
        forall|i: int|
            0 < i < collapsed(s).len() ==> (#[trigger] collapsed(s)[i]).1 != collapsed(s)[i - 1].1,
    decreases s.len(),
{
    if s.len() > 0 {
        lemma_collapsed(s.drop_last());
        if s.len() == 1 {
            assert(s.drop_last() =~= Seq::empty());
        }
    }
}

proof fn lemma_sample_times(k: int, max: int, t0: u64, t1: u64)
    requires
        0 <= k < max,
    ensures
        t0 <= sample_time(k, max, t0, t1),
        t0 < t1 ==> sample_time(k, max, t0, t1) <= t1,
        k > 0 ==> sample_time(k - 1, max, t0, t1) <= sample_time(k, max, t0, t1),
        k == 0 ==> sample_time(k, max, t0, t1) == t0,
        k == max - 1 && k > 0 && t0 < t1 ==> sample_time(k, max, t0, t1) == t1,
{
    let span: int = if t1 > t0 {
        t1 - t0
    } else {
        1
    };
    let steps: int = if max > 1 {
        max - 1
    } else {
        1
    };
    lemma_sample_bounds(span, k, steps);
    if k > 0 {
        lemma_sample_order(span, k - 1, k, steps);
    } else {
        assert((span * k) / steps == 0) by (nonlinear_arith)
            requires
                k == 0,
                steps > 0,
        ;
    }
    if k == max - 1 && k > 0 {
        vstd::arithmetic::div_mod::lemma_div_multiples_vanish(span, steps);
        assert(span * steps == steps * span) by (nonlinear_arith);
    }
}

/// What is left of samples: rows in time order, each with the value at its time.
proof fn lemma_collapsed_samples(
    rows: Seq<(u64, Seq<char>)>,
    n: nat,
    max: int,
    t0: u64,
    t1: u64,
)
    requires
        n <= max,
    ensures
        ({
            let r = collapsed(samples(rows, n, max, t0, t1));
            &&& forall|i: int|
                0 <= i < r.len() ==> (#[trigger] r[i]).1 == value_at(rows, r[i].0) && t0 <= r[i].0
                    && (t0 < t1 ==> r[i].0 <= t1)
            &&& forall|i: int| 0 < i < r.len() ==> r[i - 1].0 < (#[trigger] r[i]).0
            &&& n > 0 ==> r.len() > 0 && r.last().0 <= sample_time(n - 1, max, t0, t1)
        }),
    decreases n,
{
    let all = samples(rows, n, max, t0, t1);
    if n > 0 {
        let m = (n - 1) as nat;
        lemma_collapsed_samples(rows, m, max, t0, t1);
        assert(all.drop_last() =~= samples(rows, m, max, t0, t1));
        lemma_sample_times(n - 1, max, t0, t1);
        let before = collapsed(all.drop_last());
        let r = collapsed(all);
        assert forall|i: int| 0 < i < r.len() implies r[i - 1].0 < (#[trigger] r[i]).0 by {
            if i < before.len() {
                assert(before[i - 1].0 < before[i].0);
            } else {
                assert(r[i - 1] == before.last());
            }
        }
        assert forall|i: int| 0 <= i < r.len() implies (#[trigger] r[i]).1 == value_at(
            rows,
            r[i].0,
        ) && t0 <= r[i].0 && (t0 < t1 ==> r[i].0 <= t1) by {
            if i < before.len() {
                assert(before[i].1 == value_at(rows, before[i].0));
            }
        }
    }
}

/// Thinning keeps to the cap. What it leaves of more rows than that starts where the window
/// starts, is in time order and changes with each row; it ends with the value that the
/// window ends with, where the cap allows for more than the start.
pub proof fn law_thinning(rows: Seq<(u64, Seq<char>)>, max: nat, t0: u64, t1: u64)
    ensures
        thinned(rows, max, t0, t1).len() <= max,
        rows.len() <= max ==> thinned(rows, max, t0, t1) == rows,
        rows.len() > max ==> {
            let r = thinned(rows, max, t0, t1);
            &&& max > 0 ==> r.len() > 0 && r[0].0 == t0
            &&& max > 1 && t0 < t1 ==> r.last().1 == value_at(rows, t1)
            &&& forall|i: int|
                0 < i < r.len() ==> (#[trigger] r[i]).1 != r[i - 1].1 && r[i - 1].0 < r[i].0
        },
{
    if rows.len() > max {
        let all = samples(rows, max, max as int, t0, t1);
        lemma_collapsed(all);
        lemma_collapsed_samples(rows, max, max as int, t0, t1);
        if max > 0 {
            lemma_sample_times(0, max as int, t0, t1);
            lemma_sample_times(max - 1, max as int, t0, t1);
            assert(all[0].0 == t0);
            assert(all.last().0 == sample_time(max - 1, max as int, t0, t1));
        }
    }
}

proof fn lemma_rows_all(rows: Seq<(u64, Seq<char>)>, i: int, t: u64)
    requires
        0 <= i <= rows.len(),
        forall|k: int| 0 <= k < rows.len() ==> (#[trigger] rows[k]).0 <= t,
    ensures
        rows_up_to(rows, i, t) == rows.len(),
    decreases rows.len() - i,
{
    if i < rows.len() {
        lemma_rows_all(rows, i + 1, t);
    }
}

proof fn lemma_points_from(ps: Seq<(u64, Seq<char>)>, t0: u64, t1: u64)
    requires
        forall|i: int| 0 <= i < ps.len() && t0 <= (#[trigger] ps[i]).0 ==> ps[i].0 <= t1,
    ensures
        forall|i: int|
            0 <= i < points_from(ps, t0).len() ==> t0 <= (#[trigger] points_from(ps, t0)[i]).0
                <= t1,
    decreases ps.len(),
{
    reveal(Seq::filter);
    if ps.len() > 0 {
        let rest = ps.drop_last();
        assert forall|i: int| 0 <= i < rest.len() && t0 <= (#[trigger] rest[i]).0 implies rest[i].0
            <= t1 by {
            assert(rest[i] == ps[i]);
        }
        lemma_points_from(rest, t0, t1);
        let had = points_from(rest, t0);
        let all = points_from(ps, t0);
        assert(ps[ps.len() - 1] == ps.last());
        assert forall|i: int| 0 <= i < all.len() implies t0 <= (#[trigger] all[i]).0 <= t1 by {
            if i < had.len() {
                assert(all[i] == had[i]);
            }
        }
    }
}

proof fn lemma_window_stop(ps: Seq<(u64, Seq<char>)>, i: int, t0: u64, t1: u64)
    requires
        0 <= i <= ps.len(),
    ensures
        i <= window_stop(ps, i, t0, t1) <= ps.len(),
        forall|k: int|
            i <= k < window_stop(ps, i, t0, t1) && t0 <= (#[trigger] ps[k]).0 ==> ps[k].0 <= t1,
    decreases ps.len() - i,
{
    if i < ps.len() && !(t0 <= ps[i].0 && t1 < ps[i].0) {
        lemma_window_stop(ps, i + 1, t0, t1);
    }
}

/// Whatever the cap, what is shown of a window lies in the window.
pub proof fn law_rows_are_in_the_window(
    ps: Seq<(u64, Seq<char>)>,
    max: nat,
    t0: u64,
    t1: u64,
)
    requires
        t0 <= t1,
    ensures
        ({
            let r = thinned(window_rows(ps, t0, t1), max, t0, t1);
            forall|i: int| 0 <= i < r.len() ==> t0 <= (#[trigger] r[i]).0 <= t1
        }),
{
    let rows = window_rows(ps, t0, t1);
    lemma_window_stop(ps, 0, t0, t1);
    let seen = ps.take(window_stop(ps, 0, t0, t1));
    assert forall|i: int| 0 <= i < seen.len() && t0 <= (#[trigger] seen[i]).0 implies seen[i].0
        <= t1 by {
        assert(seen[i] == ps[i]);
    }
    lemma_points_from(seen, t0, t1);
    let inside = points_from(seen, t0);
    assert forall|i: int| 0 <= i < rows.len() implies t0 <= (#[trigger] rows[i]).0 <= t1 by {
        if rows.len() > inside.len() {
            if i > 0 {
                assert(rows[i] == inside[i - 1]);
            }
        } else {
            assert(rows[i] == inside[i]);
        }
    }
    if rows.len() > max {
        law_thinning(rows, max, t0, t1);
        lemma_collapsed_samples(rows, max, max as int, t0, t1);
        let r = thinned(rows, max, t0, t1);
        if t0 == t1 {
            assert forall|i: int| 0 <= i < r.len() implies (#[trigger] r[i]).1 == rows[rows.len()
                - 1].1 by {
                assert forall|k: int| 0 <= k < rows.len() implies (#[trigger] rows[k]).0
                    <= r[i].0 by {}
                lemma_rows_all(rows, 0, r[i].0);
            }
            if r.len() > 1 {
                assert(r[1].1 != r[0].1);
            }
        }
    }
}

/// The next edge is the first after the time; the previous one is the last before it.
pub proof fn law_edges_are_nearest(
    ps: Seq<(u64, Seq<char>)>,
    from: u64,
    bits: u32,
    bit_lsb: Option<u32>,
    kind: EdgeKind,
)
    ensures
        match edge_after(ps, 1, from, bits, bit_lsb, kind) {
            Some(t) => t > from && exists|i: int|
                1 <= i < ps.len() && (#[trigger] ps[i]).0 == t && edge_at(
                    ps,
                    i,
                    bits,
                    bit_lsb,
                    kind,
                ) && (forall|j: int|
                    1 <= j < i && ps[j].0 > from ==> !(#[trigger] edge_at(
                        ps,
                        j,
                        bits,
                        bit_lsb,
                        kind,
                    ))),
            None => forall|j: int|
                1 <= j < ps.len() && ps[j].0 > from ==> !(#[trigger] edge_at(
                    ps,
                    j,
                    bits,
                    bit_lsb,
                    kind,
                )),
        },
        match edge_before(ps, ps.len() as int, from, bits, bit_lsb, kind) {
            Some(t) => t < from && exists|i: int|
                1 <= i < ps.len() && (#[trigger] ps[i]).0 == t && edge_at(
                    ps,
                    i,
                    bits,
                    bit_lsb,
                    kind,
                ) && (forall|j: int|
                    i < j < ps.len() && ps[j].0 < from ==> !(#[trigger] edge_at(
                        ps,
                        j,
                        bits,
                        bit_lsb,
                        kind,
                    ))),
            None => forall|j: int|
                1 <= j < ps.len() && ps[j].0 < from ==> !(#[trigger] edge_at(
                    ps,
                    j,
                    bits,
                    bit_lsb,
                    kind,
                )),
        },
{
    lemma_edge_after(ps, 1, from, bits, bit_lsb, kind);
    lemma_edge_before(ps, ps.len() as int, from, bits, bit_lsb, kind);
}

proof fn lemma_edge_after(
    ps: Seq<(u64, Seq<char>)>,
    k: int,
    from: u64,
    bits: u32,
    bit_lsb: Option<u32>,
    kind: EdgeKind,
)
    requires
        1 <= k,
    ensures
        match edge_after(ps, k, from, bits, bit_lsb, kind) {
            Some(t) => t > from && exists|i: int|
                k <= i < ps.len() && (#[trigger] ps[i]).0 == t && edge_at(
                    ps,
                    i,
                    bits,
                    bit_lsb,
                    kind,
                ) && (forall|j: int|
                    k <= j < i && ps[j].0 > from ==> !(#[trigger] edge_at(
                        ps,
                        j,
                        bits,
                        bit_lsb,
                        kind,
                    ))),
            None => forall|j: int|
                k <= j < ps.len() && ps[j].0 > from ==> !(#[trigger] edge_at(
                    ps,
                    j,
                    bits,
                    bit_lsb,
                    kind,
                )),
        },
    decreases ps.len() - k,
{
    if k < ps.len() {
        if ps[k].0 > from && edge_at(ps, k, bits, bit_lsb, kind) {
        } else {
            lemma_edge_after(ps, k + 1, from, bits, bit_lsb, kind);
            match edge_after(ps, k, from, bits, bit_lsb, kind) {
                Some(t) => {
                    let i = choose|i: int|
                        k + 1 <= i < ps.len() && (#[trigger] ps[i]).0 == t && edge_at(
                            ps,
                            i,
                            bits,
                            bit_lsb,
                            kind,
                        ) && (forall|j: int|
                            k + 1 <= j < i && ps[j].0 > from ==> !(#[trigger] edge_at(
                                ps,
                                j,
                                bits,
                                bit_lsb,
                                kind,
                            )));
                    assert(ps[i].0 == t);
                },
                None => {},
            }
        }
    }
}

proof fn lemma_edge_before(
    ps: Seq<(u64, Seq<char>)>,
    n: int,
    from: u64,
    bits: u32,
    bit_lsb: Option<u32>,
    kind: EdgeKind,
)
    requires
        n <= ps.len(),
    ensures
        match edge_before(ps, n, from, bits, bit_lsb, kind) {
            Some(t) => t < from && exists|i: int|
                1 <= i < n && (#[trigger] ps[i]).0 == t && edge_at(ps, i, bits, bit_lsb, kind) && (
                forall|j: int|
                    i < j < n && ps[j].0 < from ==> !(#[trigger] edge_at(
                        ps,
                        j,
                        bits,
                        bit_lsb,
                        kind,
                    ))),
            None => forall|j: int|
                1 <= j < n && ps[j].0 < from ==> !(#[trigger] edge_at(ps, j, bits, bit_lsb, kind)),
        },
    decreases n,
{
    if n > 1 {
        if ps[n - 1].0 < from && edge_at(ps, n - 1, bits, bit_lsb, kind) {
        } else {
            lemma_edge_before(ps, n - 1, from, bits, bit_lsb, kind);
            match edge_before(ps, n, from, bits, bit_lsb, kind) {
                Some(t) => {
                    let i = choose|i: int|
                        1 <= i < n - 1 && (#[trigger] ps[i]).0 == t && edge_at(
                            ps,
                            i,
                            bits,
                            bit_lsb,
                            kind,
                        ) && (forall|j: int|
                            i < j < n - 1 && ps[j].0 < from ==> !(#[trigger] edge_at(
                                ps,
                                j,
                                bits,
                                bit_lsb,
                                kind,
                            )));
                    assert(ps[i].0 == t);
                },
                None => {},
            }
        }
    }
}

/// A signal as a waveform file declares it.
#[derive(Debug)]
pub struct WaveVar {
    pub signal_id: u32,
    pub name: String,
    /// Number of bits, where the file gives one.
    pub bits: Option<u32>,
}

/// What a scope holds, in the order of the file.
#[derive(Debug)]
pub enum WaveItem {
    Scope(WaveScope),
    Var(WaveVar),
}

/// A scope of a waveform file.
#[derive(Debug)]
pub struct WaveScope {
    pub name: String,
    pub items: Vec<WaveItem>,
}

impl WaveVar {
    /// Number of bits; one where the file gives none.
    pub open spec fn spec_width(self) -> u32 {
        match self.bits {
            Some(n) => n,
            None => 1,
        }
    }

    pub fn width(&self) -> (r: u32)
        ensures
            r == self.spec_width(),
    {
        match self.bits {
            Some(n) => n,
            None => 1,
        }
    }
}

impl WaveItem {
    /// Width of the first declaration of a signal in the item.
    pub open spec fn width_of(self, want: u32) -> Option<u32>
        decreases self,
    {
        match self {
            WaveItem::Var(v) => if v.signal_id == want {
                Some(v.spec_width())
            } else {
                None
            },
            WaveItem::Scope(s) => items_width(s.items@, want),
        }
    }
}

/// Width of the first declaration of a signal in a list.
pub open spec fn items_width(items: Seq<WaveItem>, want: u32) -> Option<u32>
    decreases items,
{
    if items.len() == 0 {
        None
    } else {
        match items_width(items.drop_last(), want) {
            Some(w) => Some(w),
            None => items.last().width_of(want),
        }
    }
}

/// Width of the first declaration of a signal in the scopes.
pub open spec fn scopes_width(scopes: Seq<WaveScope>, want: u32) -> Option<u32>
    decreases scopes.len(),
{
    if scopes.len() == 0 {
        None
    } else {
        match scopes_width(scopes.drop_last(), want) {
            Some(w) => Some(w),
            None => items_width(scopes.last().items@, want),
        }
    }
}

proof fn lemma_items_width_prefix(items: Seq<WaveItem>, k: int, want: u32)
    requires
        0 <= k <= items.len(),
        items_width(items.take(k), want) is Some,
    ensures
        items_width(items, want) == items_width(items.take(k), want),
    decreases items.len(),
{
    if k == items.len() {
        assert(items.take(k) =~= items);
    } else {
        assert(items.drop_last().take(k) =~= items.take(k));
        lemma_items_width_prefix(items.drop_last(), k, want);
    }
}

proof fn lemma_scopes_width_prefix(scopes: Seq<WaveScope>, k: int, want: u32)
    requires
        0 <= k <= scopes.len(),
        scopes_width(scopes.take(k), want) is Some,
    ensures
        scopes_width(scopes, want) == scopes_width(scopes.take(k), want),
    decreases scopes.len(),
{
    if k == scopes.len() {
        assert(scopes.take(k) =~= scopes);
    } else {
        assert(scopes.drop_last().take(k) =~= scopes.take(k));
        lemma_scopes_width_prefix(scopes.drop_last(), k, want);
    }
}

fn find_width(items: &Vec<WaveItem>, want: u32) -> (r: Option<u32>)
    ensures
        r == items_width(items@, want),
    decreases items,
{
    let mut i: usize = 0;
    while i < items.len()
        invariant
            i <= items@.len(),
            items_width(items@.take(i as int), want) is None,
        decreases items@.len() - i,
    {
        proof {
            assert(items@.take(i + 1).drop_last() =~= items@.take(i as int));
            assert(items@.take(i + 1).last() == items@[i as int]);
            reveal_with_fuel(items_width, 2);
            reveal_with_fuel(WaveItem::width_of, 2);
        }
        let here = match &items[i] {
            WaveItem::Var(v) => if v.signal_id == want {
                Some(v.width())
            } else {
                None
            },
            WaveItem::Scope(s) => {
                proof {
                    assert(decreases_to!(items => items@));
                    assert(decreases_to!(items@ => items@[i as int]));
                }
                find_width(&s.items, want)
            },
        };
        if here.is_some() {
            proof {
                lemma_items_width_prefix(items@, i + 1, want);
            }
            return here;
        }
        i = i + 1;
    }
    assert(items@.take(i as int) =~= items@);
    None
}

/// Width of a signal: that of its first declaration, or one bit.
pub fn bits_for_signal(scopes: &[WaveScope], want: u32) -> (r: u32)
    ensures
        r == match scopes_width(scopes@, want) {
            Some(w) => w,
            None => 1,
        },
{
    let mut i: usize = 0;
    while i < scopes.len()
        invariant
            i <= scopes@.len(),
            scopes_width(scopes@.take(i as int), want) is None,
        decreases scopes@.len() - i,
    {
        proof {
            assert(scopes@.take(i + 1).drop_last() =~= scopes@.take(i as int));
            assert(scopes@.take(i + 1).last() == scopes@[i as int]);
        }
        if let Some(w) = find_width(&scopes[i].items, want) {
            proof {
                lemma_scopes_width_prefix(scopes@, i + 1, want);
            }
            return w;
        }
        i = i + 1;
    }
    assert(scopes@.take(i as int) =~= scopes@);
    1
}

/// The scopes among some items.
pub open spec fn scopes_in(items: Seq<WaveItem>) -> Seq<WaveScope>
    decreases items.len(),
{
    if items.len() == 0 {
        Seq::empty()
    } else {
        match items.last() {
            WaveItem::Scope(s) => scopes_in(items.drop_last()).push(s),
            WaveItem::Var(_) => scopes_in(items.drop_last()),
        }
    }
}

/// The signals among some items.
pub open spec fn vars_in(items: Seq<WaveItem>) -> Seq<WaveVar>
    decreases items.len(),
{
    if items.len() == 0 {
        Seq::empty()
    } else {
        match items.last() {
            WaveItem::Scope(_) => vars_in(items.drop_last()),
            WaveItem::Var(v) => vars_in(items.drop_last()).push(v),
        }
    }
}

impl WaveScope {
    /// The scopes and the signals that a scope holds, each in the order of the file.
    pub fn contents(&self) -> (r: (Vec<&WaveScope>, Vec<&WaveVar>))
        ensures
            r.0@.len() == scopes_in(self.items@).len(),
            forall|i: int| 0 <= i < r.0@.len() ==> *(#[trigger] r.0@[i]) == scopes_in(self.items@)[i],
            r.1@.len() == vars_in(self.items@).len(),
            forall|i: int| 0 <= i < r.1@.len() ==> *(#[trigger] r.1@[i]) == vars_in(self.items@)[i],
    {
        let mut scopes: Vec<&WaveScope> = Vec::new();
        let mut vars: Vec<&WaveVar> = Vec::new();
        let mut i: usize = 0;
        let items = &self.items;
        while i < items.len()
            invariant
                i <= items@.len(),
                scopes@.len() == scopes_in(items@.take(i as int)).len(),
                forall|j: int|
                    0 <= j < scopes@.len() ==> *(#[trigger] scopes@[j]) == scopes_in(
                        items@.take(i as int),
                    )[j],
                vars@.len() == vars_in(items@.take(i as int)).len(),
                forall|j: int|
                    0 <= j < vars@.len() ==> *(#[trigger] vars@[j]) == vars_in(
                        items@.take(i as int),
                    )[j],
            decreases items@.len() - i,
        {
            assert(items@.take(i + 1).drop_last() =~= items@.take(i as int));
            assert(items@.take(i + 1).last() == items@[i as int]);
            match &items[i] {
                WaveItem::Scope(s) => {
                    scopes.push(s);
                },
                WaveItem::Var(v) => {
                    vars.push(v);
                },
            }
            i = i + 1;
        }
        assert(items@.take(i as int) =~= items@);
        (scopes, vars)
    }
}

/// Units of a waveform's times.
#[derive(Debug, Clone, Copy, PartialEq, Eq, Structural)]
pub enum TimeUnit {
    ZeptoSeconds,
    AttoSeconds,
    FemtoSeconds,
    PicoSeconds,
    NanoSeconds,
    MicroSeconds,
    MilliSeconds,
    Seconds,
    Unknown,
}

/// Label of a unit.
pub open spec fn unit_label(u: TimeUnit) -> Seq<char> {
    match u {
        TimeUnit::ZeptoSeconds => "zs"@,
        TimeUnit::AttoSeconds => "as"@,
        TimeUnit::FemtoSeconds => "fs"@,
        TimeUnit::PicoSeconds => "ps"@,
        TimeUnit::NanoSeconds => "ns"@,
        TimeUnit::MicroSeconds => "us"@,
        TimeUnit::MilliSeconds => "ms"@,
        TimeUnit::Seconds => "s"@,
        TimeUnit::Unknown => "unknown"@,
    }
}

pub fn timescale_unit_label(u: TimeUnit) -> (r: &'static str)
    ensures
        r@ == unit_label(u),
{
    match u {
        TimeUnit::ZeptoSeconds => "zs",
        TimeUnit::AttoSeconds => "as",
        TimeUnit::FemtoSeconds => "fs",
        TimeUnit::PicoSeconds => "ps",
        TimeUnit::NanoSeconds => "ns",
        TimeUnit::MicroSeconds => "us",
        TimeUnit::MilliSeconds => "ms",
        TimeUnit::Seconds => "s",
        TimeUnit::Unknown => "unknown",
    }
}

} // verus!
