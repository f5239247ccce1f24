//! Laws: where the parts of a statement stand in its text.
//!
//! The bytes are counted here: a position is outside all brackets where as many have been
//! closed as opened.
use crate::trace::BranchChoice;
use vstd::prelude::*;

verus! {

/// How often `b` stands in `[lo, hi)`.
pub open spec fn count(s: Seq<u8>, lo: int, hi: int, b: u8) -> nat
    decreases hi - lo,
{
    if lo >= hi {
        0
    } else {
        count(s, lo, hi - 1, b) + if s[hi - 1] == b {
            1nat
        } else {
            0nat
        }
    }
}

/// Up to `i`, no more brackets of any kind have been closed than opened since `lo`.
pub open spec fn none_closed_too_often(s: Seq<u8>, lo: int, i: int) -> bool {
    &&& count(s, lo, i, 41) <= count(s, lo, i, 40)
    &&& count(s, lo, i, 93) <= count(s, lo, i, 91)
    &&& count(s, lo, i, 125) <= count(s, lo, i, 123)
}

/// No closing bracket of `[lo, hi)` lacks its opening one.
pub open spec fn well_nested(s: Seq<u8>, lo: int, hi: int) -> bool {
    forall|i: int| lo <= i <= hi ==> #[trigger] none_closed_too_often(s, lo, i)
}

/// The byte at `i` is outside all brackets that were opened since `lo`, and opens none.
pub open spec fn outside(s: Seq<u8>, lo: int, i: int) -> bool {
    &&& count(s, lo, i + 1, 41) == count(s, lo, i + 1, 40)
    &&& count(s, lo, i + 1, 93) == count(s, lo, i + 1, 91)
    &&& count(s, lo, i + 1, 125) == count(s, lo, i + 1, 123)
}

/// `p` is the first place in `[lo, hi)` where `b` stands outside all brackets.
pub open spec fn first_outside(s: Seq<u8>, lo: int, hi: int, b: u8, p: int) -> bool {
    &&& lo <= p < hi
    &&& s[p] == b
    &&& outside(s, lo, p)
    &&& forall|k: int| lo <= k < p && s[k] == b ==> !#[trigger] outside(s, lo, k)
}

/// `p` is the first place in `[lo, hi)` where `b` stands, or `hi`.
pub open spec fn first_place(s: Seq<u8>, lo: int, hi: int, b: u8, p: int) -> bool {
    &&& lo <= p <= hi
    &&& p < hi ==> s[p] == b
    &&& forall|k: int| lo <= k < p ==> #[trigger] s[k] != b
}

/// White space: a space, tab, line feed, form feed or carriage return.
pub open spec fn white(b: u8) -> bool {
    b == ' ' as u8 || b == 9 || b == 10 || b == 12 || b == 13
}

/// `[a, b)` is `[lo, hi)` without the white space at its ends.
pub open spec fn trims(s: Seq<u8>, lo: int, hi: int, a: int, b: int) -> bool {
    &&& lo <= a <= b <= hi
    &&& forall|k: int| lo <= k < a ==> white(#[trigger] s[k])
    &&& forall|k: int| b <= k < hi ==> white(#[trigger] s[k])
    &&& a < b ==> !white(s[a]) && !white(s[b - 1])
}

/// The depth that the counts up to `i` stand for.
spec fn depth_at(s: Seq<u8>, lo: int, i: int) -> crate::statement::Depth {
    crate::statement::Depth {
        paren: (count(s, lo, i, 40) - count(s, lo, i, 41)) as nat,
        bracket: (count(s, lo, i, 91) - count(s, lo, i, 93)) as nat,
        brace: (count(s, lo, i, 123) - count(s, lo, i, 125)) as nat,
    }
}

proof fn lemma_depth_step(s: Seq<u8>, lo: int, i: int)
    requires
        lo <= i,
        none_closed_too_often(s, lo, i),
        none_closed_too_often(s, lo, i + 1),
    ensures
        crate::statement::depth_after(depth_at(s, lo, i), s[i]) == depth_at(s, lo, i + 1),
        outside(s, lo, i) <==> depth_at(s, lo, i + 1) == crate::statement::flat(),
{
    reveal_with_fuel(count, 2);
}

proof fn lemma_top_level_at(s: Seq<u8>, lo: int, i: int, hi: int, b: u8, p: int)
    requires
        lo <= i <= p,
        well_nested(s, lo, hi),
        first_outside(s, lo, hi, b, p),
    ensures
        crate::statement::top_level_from(s, i, hi, depth_at(s, lo, i), b) == Some(p),
    decreases p - i,
{
    assert(none_closed_too_often(s, lo, i));
    assert(none_closed_too_often(s, lo, i + 1));
    lemma_depth_step(s, lo, i);
    if i < p {
        lemma_top_level_at(s, lo, i + 1, hi, b, p);
    }
}

/// The search for a byte outside all brackets finds the first place where there have been
/// as many closing as opening brackets of each kind.
pub proof fn law_top_level(s: Seq<u8>, lo: int, hi: int, b: u8, p: int)
    requires
        well_nested(s, lo, hi),
        first_outside(s, lo, hi, b, p),
    ensures
        crate::statement::top_level(s, lo, hi, b) == Some(p),
{
    assert(depth_at(s, lo, lo) == crate::statement::flat());
    lemma_top_level_at(s, lo, lo, hi, b, p);
}

proof fn lemma_no_top_level(s: Seq<u8>, lo: int, i: int, hi: int, b: u8)
    requires
        lo <= i,
        well_nested(s, lo, hi),
        forall|k: int| lo <= k < hi && s[k] == b ==> !#[trigger] outside(s, lo, k),
    ensures
        crate::statement::top_level_from(s, i, hi, depth_at(s, lo, i), b) is None,
    decreases hi - i,
{
    if i < hi {
        assert(none_closed_too_often(s, lo, i));
        assert(none_closed_too_often(s, lo, i + 1));
        lemma_depth_step(s, lo, i);
        lemma_no_top_level(s, lo, i + 1, hi, b);
    }
}

/// Where the byte stands nowhere outside brackets, the search finds nothing.
pub proof fn law_nothing_at_top_level(s: Seq<u8>, lo: int, hi: int, b: u8)
    requires
        well_nested(s, lo, hi),
        forall|k: int| lo <= k < hi && s[k] == b ==> !#[trigger] outside(s, lo, k),
    ensures
        crate::statement::top_level(s, lo, hi, b) is None,
{
    assert(depth_at(s, lo, lo) == crate::statement::flat());
    lemma_no_top_level(s, lo, lo, hi, b);
}

/// How often `b` stands in `[lo, hi)` outside all brackets.
pub open spec fn count_outside(s: Seq<u8>, lo: int, hi: int, b: u8) -> nat
    decreases hi - lo,
{
    if lo >= hi {
        0
    } else {
        count_outside(s, lo, hi - 1, b) + if s[hi - 1] == b && outside(s, lo, hi - 1) {
            1nat
        } else {
            0nat
        }
    }
}

/// `p` is the `:` of the `?` just before `lo`: outside brackets, behind as many `?` as `:`,
/// and the first such.
pub open spec fn own_colon(s: Seq<u8>, lo: int, hi: int, p: int) -> bool {
    &&& lo <= p < hi
    &&& s[p] == ':' as u8
    &&& outside(s, lo, p)
    &&& count_outside(s, lo, p, '?' as u8) == count_outside(s, lo, p, ':' as u8)
    &&& forall|k: int|
        lo <= k < p && s[k] == ':' as u8 && #[trigger] outside(s, lo, k) ==> count_outside(
            s,
            lo,
            k,
            '?' as u8,
        ) != count_outside(s, lo, k, ':' as u8)
}

proof fn lemma_own_colon_at(s: Seq<u8>, lo: int, i: int, hi: int, p: int)
    requires
        lo <= i <= p,
        well_nested(s, lo, hi),
        own_colon(s, lo, hi, p),
        count_outside(s, lo, i, 58) <= count_outside(s, lo, i, 63),
    ensures
        crate::statement::arm_end_from(
            s,
            i,
            hi,
            depth_at(s, lo, i),
            (count_outside(s, lo, i, 63) - count_outside(s, lo, i, 58)) as nat,
        ) == Some(p),
    decreases p - i,
{
    reveal_with_fuel(count_outside, 2);
    assert(none_closed_too_often(s, lo, i));
    assert(none_closed_too_often(s, lo, i + 1));
    lemma_depth_step(s, lo, i);
    if i < p {
        if s[i] == 58 && outside(s, lo, i) {
            assert(count_outside(s, lo, i, 63) != count_outside(s, lo, i, 58));
        }
        lemma_own_colon_at(s, lo, i + 1, hi, p);
    }
}

/// The end of the first arm of a conditional is the `:` that belongs to its `?`.
pub proof fn law_each_question_has_its_colon(s: Seq<u8>, lo: int, hi: int, p: int)
    requires
        well_nested(s, lo, hi),
        own_colon(s, lo, hi, p),
    ensures
        crate::statement::arm_end(s, lo, hi) == Some(p),
{
    assert(depth_at(s, lo, lo) == crate::statement::flat());
    lemma_own_colon_at(s, lo, lo, hi, p);
}

proof fn lemma_next(s: Seq<u8>, lo: int, hi: int, b: u8, p: int)
    requires
        first_place(s, lo, hi, b, p),
    ensures
        crate::statement::next_byte(s, lo, hi, b) == p,
    decreases hi - lo,
{
    if lo < p {
        assert(s[lo] != b);
        lemma_next(s, lo + 1, hi, b, p);
    }
}

proof fn lemma_trim_start(s: Seq<u8>, lo: int, hi: int, a: int)
    requires
        lo <= a <= hi,
        forall|k: int| lo <= k < a ==> white(#[trigger] s[k]),
        a < hi ==> !white(s[a]),
    ensures
        crate::statement::trim_start(s, lo, hi) == a,
    decreases a - lo,
{
    if lo < a {
        assert(white(s[lo]));
        lemma_trim_start(s, lo + 1, hi, a);
    }
}

proof fn lemma_trim_end(s: Seq<u8>, lo: int, hi: int, b: int)
    requires
        lo <= b <= hi,
        forall|k: int| b <= k < hi ==> white(#[trigger] s[k]),
        lo < b ==> !white(s[b - 1]),
    ensures
        crate::statement::trim_end(s, lo, hi) == b,
    decreases hi - b,
{
    if b < hi {
        assert(white(s[hi - 1]));
        lemma_trim_end(s, lo, hi - 1, b);
    }
}

/// Trimming a range that holds something else than white space leaves what is between the
/// white space at its ends.
pub proof fn law_trimming(s: Seq<u8>, lo: int, hi: int, a: int, b: int)
    requires
        trims(s, lo, hi, a, b),
        a < b,
    ensures
        crate::statement::trimmed(s, lo, hi) == (a, b),
{
    lemma_trim_start(s, lo, hi, a);
    lemma_trim_end(s, a, hi, b);
}

/// The bytes `[start, end)` are an assignment with its `=` at `eq`, and `[a, b)` is what
/// stands between that and the semicolon at `semi`, or the end, without the white space
/// around it.
pub open spec fn assignment(
    s: Seq<u8>,
    start: u32,
    end: u32,
    eq: int,
    semi: int,
    a: int,
    b: int,
) -> bool {
    &&& start < end <= s.len()
    &&& well_nested(s, start as int, end as int)
    &&& first_outside(s, start as int, end as int, '=' as u8, eq)
    &&& first_place(s, eq + 1, end as int, ';' as u8, semi)
    &&& trims(s, eq + 1, semi, a, b)
    &&& a < b
}

/// The right-hand side of an assignment is everything from behind its `=` to its semicolon,
/// without the white space around it.
pub proof fn law_right_hand_side(
    s: Seq<u8>,
    start: u32,
    end: u32,
    eq: int,
    semi: int,
    a: int,
    b: int,
)
    requires
        assignment(s, start, end, eq, semi, a, b),
    ensures
        crate::statement::right_side(s, start, end) == Some((a, b)),
{
    law_top_level(s, start as int, end as int, 61, eq);
    lemma_next(s, eq + 1, end as int, 59, semi);
    law_trimming(s, eq + 1, semi, a, b);
}

/// The bytes `[start, end)` are an assignment of a conditional, with its `=` at `eq`, its
/// `?` at `q`, the `:` of that at `colon` and a semicolon or the end at `semi`.
pub open spec fn conditional(
    s: Seq<u8>,
    start: u32,
    end: u32,
    eq: int,
    q: int,
    colon: int,
    semi: int,
) -> bool {
    &&& start < end <= s.len()
    &&& well_nested(s, start as int, end as int)
    &&& first_outside(s, start as int, end as int, '=' as u8, eq)
    &&& well_nested(s, eq + 1, end as int)
    &&& first_outside(s, eq + 1, end as int, '?' as u8, q)
    &&& well_nested(s, q + 1, end as int)
    &&& own_colon(s, q + 1, end as int, colon)
    &&& first_place(s, colon + 1, end as int, ';' as u8, semi)
}

/// The condition of a conditional stands between `=` and `?`, the arm for a true condition
/// between that and its `:`, and the arm for a false one between that and the semicolon,
/// each without the white space around it.
pub proof fn law_conditional_parts(
    s: Seq<u8>,
    start: u32,
    end: u32,
    eq: int,
    q: int,
    colon: int,
    semi: int,
    cond: (int, int),
    yes: (int, int),
    no: (int, int),
)
    requires
        conditional(s, start, end, eq, q, colon, semi),
        trims(s, eq + 1, q, cond.0, cond.1),
        cond.0 < cond.1,
        trims(s, q + 1, colon, yes.0, yes.1),
        yes.0 < yes.1,
        trims(s, colon + 1, semi, no.0, no.1),
        no.0 < no.1,
    ensures
        crate::statement::conditional_parts(s, start, end, BranchChoice::Then) == (
            Some(cond),
            Some(yes),
        ),
        crate::statement::conditional_parts(s, start, end, BranchChoice::Else) == (
            Some(cond),
            Some(no),
        ),
{
    law_top_level(s, start as int, end as int, 61, eq);
    law_top_level(s, eq + 1, end as int, 63, q);
    law_each_question_has_its_colon(s, q + 1, end as int, colon);
    lemma_next(s, colon + 1, end as int, 59, semi);
    law_trimming(s, eq + 1, q, cond.0, cond.1);
    law_trimming(s, q + 1, colon, yes.0, yes.1);
    law_trimming(s, colon + 1, semi, no.0, no.1);
}

/// A letter, digit, underscore or dollar sign.
pub open spec fn name_byte(b: u8) -> bool {
    ||| '0' as u8 <= b <= '9' as u8
    ||| 'A' as u8 <= b <= 'Z' as u8
    ||| 'a' as u8 <= b <= 'z' as u8
    ||| b == '_' as u8
    ||| b == '$' as u8
}

/// `w` stands at `a` as a whole word of `[lo, hi)`.
pub open spec fn stands_at(s: Seq<u8>, lo: int, hi: int, w: Seq<u8>, a: int) -> bool {
    &&& lo <= a
    &&& a + w.len() <= hi
    &&& forall|k: int| 0 <= k < w.len() ==> #[trigger] w[k] == s[a + k] && name_byte(w[k])
    &&& a > lo ==> !name_byte(s[a - 1])
    &&& a + w.len() < hi ==> !name_byte(s[a + w.len()])
}

/// A statement is taken to assign to a name exactly where the name stands as a whole word in
/// front of its first `=`, or where there is no text to tell.
pub proof fn law_assigned_name(
    text: Option<Seq<u8>>,
    start: u32,
    end: u32,
    leaf: Seq<u8>,
    eq: int,
)
    requires
        text matches Some(s) ==> start < end <= s.len() && first_place(
            s,
            start as int,
            end as int,
            '=' as u8,
            eq,
        ),
    ensures
        crate::statement::assigns_to_signal(text, start, end, leaf) <==> match text {
            None => true,
            Some(s) => exists|a: int| stands_at(s, start as int, eq, leaf, a),
        },
{
    if let Some(s) = text {
        lemma_next(s, start as int, end as int, 61, eq);
        if crate::statement::has_word(s, start as int, eq, leaf) {
            let a = choose|a: int| crate::statement::word_at(s, start as int, eq, a, leaf);
            assert forall|k: int| 0 <= k < leaf.len() implies #[trigger] leaf[k] == s[a + k]
                && name_byte(leaf[k]) by {
                assert(s.subrange(a, a + leaf.len())[k] == s[a + k]);
                assert(crate::statement::is_word(leaf[k]));
            }
            assert(stands_at(s, start as int, eq, leaf, a));
        }
        if exists|a: int| stands_at(s, start as int, eq, leaf, a) {
            let a = choose|a: int| stands_at(s, start as int, eq, leaf, a);
            assert(s.subrange(a, a + leaf.len()) =~= leaf);
            assert forall|k: int| 0 <= k < leaf.len() implies crate::statement::is_word(
                #[trigger] leaf[k],
            ) by {
                assert(name_byte(leaf[k]));
            }
            assert(crate::statement::word_at(s, start as int, eq, a, leaf));
        }
    }
}

/// `[lo, hi)` is a whole line: it starts at the text or behind a line feed, holds none, and
/// ends in front of one, with or without a carriage return, or at the end of the text.
pub open spec fn whole_line(s: Seq<u8>, lo: int, hi: int) -> bool {
    &&& 0 <= lo <= hi <= s.len()
    &&& lo > 0 ==> s[lo - 1] == 10
    &&& forall|k: int| lo <= k < hi ==> #[trigger] s[k] != 10
    &&& hi == s.len() || s[hi] == 10 || (s[hi] == 13 && hi + 1 < s.len() && s[hi + 1] == 10)
}

/// The line that is found for an assigned name is a whole line of the text, which holds an
/// `=` and the name in front of it.
pub proof fn law_assigning_line(s: Seq<u8>, leaf: Seq<u8>)
    requires
        forall|i: int| 0 <= i < leaf.len() ==> name_byte(#[trigger] leaf[i]),
    ensures
        crate::statement::assign_line(s, 0, leaf) matches Some((lo, hi)) ==> {
            &&& whole_line(s, lo, hi)
            &&& exists|a: int, k: int|
                lo <= a && a + leaf.len() <= k < hi && s[k] == '=' as u8 && #[trigger] s.subrange(
                    a,
                    a + leaf.len(),
                ) == leaf && #[trigger] s[k] == s[k]
        },
{
    lemma_assigning_line(s, 0, leaf);
}

proof fn lemma_next_is_first(s: Seq<u8>, lo: int, hi: int, b: u8)
    requires
        lo <= hi,
    ensures
        first_place(s, lo, hi, b, crate::statement::next_byte(s, lo, hi, b)),
    decreases hi - lo,
{
    if lo < hi && s[lo] != b {
        lemma_next_is_first(s, lo + 1, hi, b);
    }
}

proof fn lemma_spaces(s: Seq<u8>, lo: int, hi: int)
    requires
        lo <= hi,
    ensures
        lo <= crate::statement::skip_spaces(s, lo, hi) <= hi,
    decreases hi - lo,
{
    if crate::statement::space_at(s, lo, hi) > 0 {
        lemma_spaces(s, lo + crate::statement::space_at(s, lo, hi), hi);
    }
}

proof fn lemma_dropped(s: Seq<u8>, lo: int, hi: int)
    requires
        lo <= hi,
    ensures
        lo <= crate::statement::drop_spaces(s, lo, hi) <= hi,
    decreases hi - lo,
{
    if crate::statement::space_before(s, lo, hi) > 0 {
        lemma_dropped(s, lo, hi - crate::statement::space_before(s, lo, hi));
    }
}

proof fn lemma_assigning_line(s: Seq<u8>, at: int, leaf: Seq<u8>)
    requires
        0 <= at <= s.len(),
        at > 0 ==> s[at - 1] == 10,
        forall|i: int| 0 <= i < leaf.len() ==> name_byte(#[trigger] leaf[i]),
    ensures
        crate::statement::assign_line(s, at, leaf) matches Some((lo, hi)) ==> {
            &&& whole_line(s, lo, hi)
            &&& exists|a: int, k: int|
                lo <= a && a + leaf.len() <= k < hi && s[k] == '=' as u8 && #[trigger] s.subrange(
                    a,
                    a + leaf.len(),
                ) == leaf && #[trigger] s[k] == s[k]
        },
    decreases s.len() - at,
{
    if at < s.len() {
        let nl = crate::statement::next_byte(s, at, s.len() as int, 10);
        lemma_next_is_first(s, at, s.len() as int, 10);
        let hi = if nl < s.len() && nl > at && s[nl - 1] == 13 {
            nl - 1
        } else {
            nl
        };
        if crate::statement::line_assigns(s, at, hi, leaf) {
            let a = crate::statement::skip_spaces(s, at, hi);
            lemma_spaces(s, at, hi);
            let e = crate::statement::drop_spaces(s, a, hi);
            lemma_dropped(s, a, hi);
            lemma_next_is_first(s, a, e, 61);
            let k = crate::statement::next_byte(s, a, e, 61);
            lemma_line_shape(s, a, e, leaf, k);
        } else if nl < s.len() {
            lemma_assigning_line(s, nl + 1, leaf);
        }
    }
}

proof fn lemma_line_shape(s: Seq<u8>, a: int, e: int, leaf: Seq<u8>, k: int)
    requires
        0 <= a <= k < e <= s.len(),
        s[k] == 61,
        ({
            ||| crate::statement::bytes_at(s, a, e, crate::statement::assign_word())
                && crate::statement::leaf_then(s, a + 7, e, leaf, 32, 61)
            ||| crate::statement::leaf_assigned(s, a, e, leaf)
        }),
        first_place(s, a, e, 61, k),
        forall|i: int| 0 <= i < leaf.len() ==> name_byte(#[trigger] leaf[i]),
    ensures
        exists|b: int, j: int|
            a <= b && b + leaf.len() <= j < e && s[j] == '=' as u8 && #[trigger] s.subrange(
                b,
                b + leaf.len(),
            ) == leaf && #[trigger] s[j] == s[j],
{
    if crate::statement::leaf_assigned(s, a, e, leaf) {
        let i = a + leaf.len();
        let j = if crate::statement::bytes_at(s, i, e, seq![32u8, 60, 61]) {
            assert(s.subrange(i, i + 3)[2] == 61);
            i + 2
        } else if crate::statement::bytes_at(s, i, e, seq![60u8, 61]) {
            assert(s.subrange(i, i + 2)[1] == 61);
            i + 1
        } else if crate::statement::bytes_at(s, i, e, seq![32u8, 61]) {
            assert(s.subrange(i, i + 2)[1] == 61);
            i + 1
        } else {
            assert(s.subrange(i, i + 1)[0] == 61);
            i
        };
        assert(s.subrange(a, a + leaf.len()) == leaf && s[j] == 61);
    } else {
        let b = a + 7;
        let w = crate::statement::assign_word();
        assert(k >= b + leaf.len()) by {
            if k < b {
                assert(s.subrange(a, a + 7)[k - a] == w[k - a]);
            } else if k < b + leaf.len() {
                assert(s.subrange(b, b + leaf.len())[k - b] == leaf[k - b]);
                assert(name_byte(leaf[k - b]));
            }
        }
        assert(s.subrange(b, b + leaf.len()) == leaf && s[k] == 61);
    }
}

/// These bytes stand at `a`, in front of `hi`.
pub open spec fn bytes_stand(s: Seq<u8>, a: int, hi: int, w: Seq<u8>) -> bool {
    &&& 0 <= a && a + w.len() <= hi <= s.len()
    &&& forall|k: int| 0 <= k < w.len() ==> s[a + k] == #[trigger] w[k]
}

/// The text from `a` to `hi` assigns to the name: the name and an assignment sign with at most
/// one space between them, or the word `assign`, a space, the name, a space or an equals sign,
/// and an equals sign somewhere.
pub open spec fn assigning_text(s: Seq<u8>, a: int, hi: int, leaf: Seq<u8>) -> bool {
    let i = a + leaf.len();
    ||| bytes_stand(s, a, hi, leaf) && i < hi && s[i] == '=' as u8
    ||| bytes_stand(s, a, hi, leaf) && i + 1 < hi && s[i] == ' ' as u8 && s[i + 1] == '=' as u8
    ||| bytes_stand(s, a, hi, leaf) && i + 1 < hi && s[i] == '<' as u8 && s[i + 1] == '=' as u8
    ||| bytes_stand(s, a, hi, leaf) && i + 2 < hi && s[i] == ' ' as u8 && s[i + 1] == '<' as u8
        && s[i + 2] == '=' as u8
    ||| {
        &&& bytes_stand(s, a, hi, seq![97u8, 115, 115, 105, 103, 110, 32])
        &&& bytes_stand(s, a + 7, hi, leaf)
        &&& i + 7 < hi
        &&& s[i + 7] == ' ' as u8 || s[i + 7] == '=' as u8
        &&& exists|k: int| i + 7 <= k < hi && #[trigger] s[k] == '=' as u8
    }
}

/// A line that assigns to a name, behind spaces and tabs and up to a semicolon, is found,
/// unless an earlier one is.
pub proof fn law_assigning_line_is_found(s: Seq<u8>, leaf: Seq<u8>, lo: int, a: int, hi: int)
    requires
        leaf.len() > 0,
        forall|i: int| 0 <= i < leaf.len() ==> name_byte(#[trigger] leaf[i]),
        whole_line(s, lo, hi),
        lo <= a < hi,
        forall|k: int| lo <= k < a ==> (#[trigger] s[k] == ' ' as u8 || s[k] == 9),
        s[hi - 1] == ';' as u8,
        assigning_text(s, a, hi, leaf),
    ensures
        crate::statement::assign_line(s, 0, leaf) matches Some((l, h)) && l <= lo,
{
    lemma_found(s, leaf, lo, a, hi, 0);
}

proof fn lemma_found(s: Seq<u8>, leaf: Seq<u8>, lo: int, a: int, hi: int, at: int)
    requires
        leaf.len() > 0,
        forall|i: int| 0 <= i < leaf.len() ==> name_byte(#[trigger] leaf[i]),
        whole_line(s, lo, hi),
        lo <= a < hi,
        forall|k: int| lo <= k < a ==> (#[trigger] s[k] == ' ' as u8 || s[k] == 9),
        s[hi - 1] == ';' as u8,
        assigning_text(s, a, hi, leaf),
        0 <= at <= lo,
    ensures
        crate::statement::assign_line(s, at, leaf) matches Some((l, h)) && l <= lo,
    decreases lo - at,
{
    let nl = crate::statement::next_byte(s, at, s.len() as int, 10);
    lemma_next_is_first(s, at, s.len() as int, 10);
    if at == lo {
        if nl < hi {
            assert(s[nl] != 10);
        }
        if hi < s.len() && s[hi] == 10 && nl > hi {
            assert(s[hi] != 10);
        }
        if hi < s.len() && s[hi] == 13 && nl > hi + 1 {
            assert(s[hi + 1] != 10);
        }
        lemma_line_found(s, leaf, lo, a, hi);
    } else {
        if nl > lo - 1 {
            assert(s[lo - 1] != 10);
        }
        let end = if nl < s.len() && nl > at && s[nl - 1] == 13 {
            nl - 1
        } else {
            nl
        };
        if !crate::statement::line_assigns(s, at, end, leaf) {
            lemma_found(s, leaf, lo, a, hi, nl + 1);
        }
    }
}

proof fn lemma_indent(s: Seq<u8>, lo: int, a: int, hi: int)
    requires
        0 <= lo <= a < hi <= s.len(),
        forall|k: int| lo <= k < a ==> (#[trigger] s[k] == ' ' as u8 || s[k] == 9),
        32 < s[a] < 128,
    ensures
        crate::statement::skip_spaces(s, lo, hi) == a,
    decreases a - lo,
{
    if lo < a {
        assert(s[lo] == ' ' as u8 || s[lo] == 9);
        lemma_indent(s, lo + 1, a, hi);
    }
}

proof fn lemma_line_found(s: Seq<u8>, leaf: Seq<u8>, lo: int, a: int, hi: int)
    requires
        leaf.len() > 0,
        forall|i: int| 0 <= i < leaf.len() ==> name_byte(#[trigger] leaf[i]),
        0 <= lo <= a < hi <= s.len(),
        forall|k: int| lo <= k < a ==> (#[trigger] s[k] == ' ' as u8 || s[k] == 9),
        s[hi - 1] == ';' as u8,
        assigning_text(s, a, hi, leaf),
    ensures
        crate::statement::line_assigns(s, lo, hi, leaf),
{
    let word = seq![97u8, 115, 115, 105, 103, 110, 32];
    let i = a + leaf.len();
    assert(name_byte(leaf[0]));
    if bytes_stand(s, a, hi, word) {
        assert(s[a + 0] == word[0]);
        assert(s.subrange(a, a + 7) =~= crate::statement::assign_word());
    }
    if bytes_stand(s, a, hi, leaf) {
        assert(s[a + 0] == leaf[0]);
        assert(s.subrange(a, a + leaf.len()) =~= leaf);
    }
    if bytes_stand(s, a + 7, hi, leaf) {
        assert(s.subrange(a + 7, a + 7 + leaf.len()) =~= leaf);
    }
    assert(32 < s[a] < 128);
    lemma_indent(s, lo, a, hi);
    assert(crate::statement::drop_spaces(s, a, hi) == hi);
    lemma_next_is_first(s, a, hi, 61);
    let eq = crate::statement::next_byte(s, a, hi, 61);
    if bytes_stand(s, a, hi, leaf) && i < hi && s[i] == 61 {
        assert(s.subrange(i, i + 1) =~= seq![61u8]);
    }
    if bytes_stand(s, a, hi, leaf) && i + 1 < hi && s[i] == 32 && s[i + 1] == 61 {
        assert(s.subrange(i, i + 2) =~= seq![32u8, 61]);
    }
    if bytes_stand(s, a, hi, leaf) && i + 1 < hi && s[i] == 60 && s[i + 1] == 61 {
        assert(s.subrange(i, i + 2) =~= seq![60u8, 61]);
    }
    if bytes_stand(s, a, hi, leaf) && i + 2 < hi && s[i] == 32 && s[i + 1] == 60 && s[i + 2] == 61 {
        assert(s.subrange(i, i + 3) =~= seq![32u8, 60, 61]);
    }
    if eq == hi {
        assert(forall|k: int| a <= k < hi ==> #[trigger] s[k] != 61);
    }
}

/// Where the text of a statement is known and its first `=` outside brackets is at `eq`, it
/// assigns to the names that stand as whole words in front of that; where there is no such
/// sign or no text, it assigns to none.
pub proof fn law_name_before_assignment(
    s: Seq<u8>,
    start: u32,
    end: u32,
    leaf: Seq<u8>,
    eq: int,
)
    requires
        start < end <= s.len(),
        well_nested(s, start as int, end as int),
    ensures
        first_outside(s, start as int, end as int, 61, eq) ==> (crate::statement::assigns_to_lhs(
            Some(s),
            start,
            end,
            leaf,
        ) <==> exists|a: int| stands_at(s, start as int, eq, leaf, a)),
        (forall|k: int|
            start <= k < end && s[k] == 61 ==> !#[trigger] outside(s, start as int, k))
            ==> !crate::statement::assigns_to_lhs(Some(s), start, end, leaf),
        !crate::statement::assigns_to_lhs(None, start, end, leaf),
{
    if first_outside(s, start as int, end as int, 61, eq) {
        law_top_level(s, start as int, end as int, 61, eq);
        if crate::statement::has_word(s, start as int, eq, leaf) {
            let a = choose|a: int| crate::statement::word_at(s, start as int, eq, a, leaf);
            assert forall|k: int| 0 <= k < leaf.len() implies #[trigger] leaf[k] == s[a + k]
                && name_byte(leaf[k]) by {
                assert(s.subrange(a, a + leaf.len())[k] == s[a + k]);
                assert(crate::statement::is_word(leaf[k]));
            }
            assert(stands_at(s, start as int, eq, leaf, a));
        }
        if exists|a: int| stands_at(s, start as int, eq, leaf, a) {
            let a = choose|a: int| stands_at(s, start as int, eq, leaf, a);
            assert(s.subrange(a, a + leaf.len()) =~= leaf);
            assert forall|k: int| 0 <= k < leaf.len() implies crate::statement::is_word(
                #[trigger] leaf[k],
            ) by {
                assert(name_byte(leaf[k]));
            }
            assert(crate::statement::word_at(s, start as int, eq, a, leaf));
        }
    }
    if forall|k: int| start <= k < end && s[k] == 61 ==> !#[trigger] outside(s, start as int, k) {
        law_nothing_at_top_level(s, start as int, end as int, 61);
    }
}

} // verus!
