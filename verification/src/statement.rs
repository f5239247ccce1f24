//! The text of a statement, found by byte offsets: its sides, the arms of a conditional, and
//! the operands of a right-hand side.
use crate::text::push_char;
use crate::trace::BranchChoice;
use vstd::prelude::*;

verus! {

/// Part of an identifier.
pub open spec fn is_word(b: u8) -> bool {
    (48 <= b <= 57) || (65 <= b <= 90) || (97 <= b <= 122) || b == 95 || b == 36
}

/// Start of an identifier.
pub open spec fn starts_word(b: u8) -> bool {
    (65 <= b <= 90) || (97 <= b <= 122) || b == 95
}

/// ASCII white space.
pub open spec fn is_blank(b: u8) -> bool {
    b == 32 || b == 9 || b == 10 || b == 12 || b == 13
}

pub fn is_word_byte(b: u8) -> (r: bool)
    ensures
        r == is_word(b),
{
    (48 <= b && b <= 57) || (65 <= b && b <= 90) || (97 <= b && b <= 122) || b == 95 || b == 36
}

fn starts_word_byte(b: u8) -> (r: bool)
    ensures
        r == starts_word(b),
{
    (65 <= b && b <= 90) || (97 <= b && b <= 122) || b == 95
}

fn is_blank_byte(b: u8) -> (r: bool)
    ensures
        r == is_blank(b),
{
    b == 32 || b == 9 || b == 10 || b == 12 || b == 13
}

/// How deep a position is in parentheses, brackets and braces.
pub ghost struct Depth {
    pub paren: nat,
    pub bracket: nat,
    pub brace: nat,
}

pub open spec fn up(n: nat) -> nat {
    n + 1
}

pub open spec fn down(n: nat) -> nat {
    if n > 0 {
        (n - 1) as nat
    } else {
        0
    }
}

/// The depth after the byte `b`; a closing mark without an opening one does not count.
pub open spec fn depth_after(d: Depth, b: u8) -> Depth {
    if b == 40 {
        Depth { paren: up(d.paren), ..d }
    } else if b == 41 {
        Depth { paren: down(d.paren), ..d }
    } else if b == 91 {
        Depth { bracket: up(d.bracket), ..d }
    } else if b == 93 {
        Depth { bracket: down(d.bracket), ..d }
    } else if b == 123 {
        Depth { brace: up(d.brace), ..d }
    } else if b == 125 {
        Depth { brace: down(d.brace), ..d }
    } else {
        d
    }
}

pub open spec fn flat() -> Depth {
    Depth { paren: 0, bracket: 0, brace: 0 }
}

/// First position in `[i, hi)` that holds `target` outside all brackets, from depth `d`.
pub open spec fn top_level_from(s: Seq<u8>, i: int, hi: int, d: Depth, target: u8) -> Option<int>
    decreases hi - i,
{
    if i >= hi {
        None
    } else if depth_after(d, s[i]) == flat() && s[i] == target {
        Some(i)
    } else {
        top_level_from(s, i + 1, hi, depth_after(d, s[i]), target)
    }
}

/// First position in `[lo, hi)` that holds `target` outside all brackets opened there.
pub open spec fn top_level(s: Seq<u8>, lo: int, hi: int, target: u8) -> Option<int> {
    top_level_from(s, lo, hi, flat(), target)
}

/// Finds `target` outside all brackets.
pub fn find_top_level(s: &[u8], lo: usize, hi: usize, target: u8) -> (r: Option<usize>)
    requires
        lo <= hi <= s@.len(),
    ensures
        match r {
            Some(i) => lo <= i < hi && top_level(s@, lo as int, hi as int, target) == Some(
                i as int,
            ),
            None => top_level(s@, lo as int, hi as int, target) is None,
        },
{
    let mut paren: usize = 0;
    let mut bracket: usize = 0;
    let mut brace: usize = 0;
    let mut i: usize = lo;
    while i < hi
        invariant
            lo <= i <= hi <= s@.len(),
            paren <= i - lo,
            bracket <= i - lo,
            brace <= i - lo,
            top_level_from(
                s@,
                i as int,
                hi as int,
                Depth { paren: paren as nat, bracket: bracket as nat, brace: brace as nat },
                target,
            ) == top_level(s@, lo as int, hi as int, target),
        decreases hi - i,
    {
        let b = s[i];
        if b == 40 {
            paren = paren + 1;
        } else if b == 41 {
            if paren > 0 {
                paren = paren - 1;
            }
        } else if b == 91 {
            bracket = bracket + 1;
        } else if b == 93 {
            if bracket > 0 {
                bracket = bracket - 1;
            }
        } else if b == 123 {
            brace = brace + 1;
        } else if b == 125 {
            if brace > 0 {
                brace = brace - 1;
            }
        }
        if paren == 0 && bracket == 0 && brace == 0 && b == target {
            return Some(i);
        }
        i = i + 1;
    }
    None
}

/// Position in `[i, hi)` of the `:` that belongs to the `?` in front, from depth `d`, where
/// `open` further `?` outside all brackets still wait for their own.
pub open spec fn arm_end_from(s: Seq<u8>, i: int, hi: int, d: Depth, open: nat) -> Option<int>
    decreases hi - i,
{
    if i >= hi {
        None
    } else {
        let after = depth_after(d, s[i]);
        if after != flat() {
            arm_end_from(s, i + 1, hi, after, open)
        } else if s[i] == 63 {
            arm_end_from(s, i + 1, hi, after, open + 1)
        } else if s[i] != 58 {
            arm_end_from(s, i + 1, hi, after, open)
        } else if open == 0 {
            Some(i)
        } else {
            arm_end_from(s, i + 1, hi, after, (open - 1) as nat)
        }
    }
}

/// Position in `[lo, hi)` of the `:` that belongs to a `?` just before `lo`.
pub open spec fn arm_end(s: Seq<u8>, lo: int, hi: int) -> Option<int> {
    arm_end_from(s, lo, hi, flat(), 0)
}

/// Finds the `:` of a conditional from behind its `?`; conditionals in the first arm are
/// passed.
fn find_arm_end(s: &[u8], lo: usize, hi: usize) -> (r: Option<usize>)
    requires
        lo <= hi <= s@.len(),
    ensures
        match r {
            Some(i) => lo <= i < hi && arm_end(s@, lo as int, hi as int) == Some(i as int),
            None => arm_end(s@, lo as int, hi as int) is None,
        },
{
    let mut paren: usize = 0;
    let mut bracket: usize = 0;
    let mut brace: usize = 0;
    let mut open: usize = 0;
    let mut i: usize = lo;
    while i < hi
        invariant
            lo <= i <= hi <= s@.len(),
            paren <= i - lo,
            bracket <= i - lo,
            brace <= i - lo,
            open <= i - lo,
            arm_end_from(
                s@,
                i as int,
                hi as int,
                Depth { paren: paren as nat, bracket: bracket as nat, brace: brace as nat },
                open as nat,
            ) == arm_end(s@, lo as int, hi as int),
        decreases hi - i,
    {
        let b = s[i];
        if b == 40 {
            paren = paren + 1;
        } else if b == 41 {
            if paren > 0 {
                paren = paren - 1;
            }
        } else if b == 91 {
            bracket = bracket + 1;
        } else if b == 93 {
            if bracket > 0 {
                bracket = bracket - 1;
            }
        } else if b == 123 {
            brace = brace + 1;
        } else if b == 125 {
            if brace > 0 {
                brace = brace - 1;
            }
        }
        if paren == 0 && bracket == 0 && brace == 0 {
            if b == 63 {
                open = open + 1;
            } else if b == 58 {
                if open == 0 {
                    return Some(i);
                }
                open = open - 1;
            }
        }
        i = i + 1;
    }
    None
}

/// First position in `[i, hi)` that holds `target`, or `hi`.
pub open spec fn next_byte(s: Seq<u8>, i: int, hi: int, target: u8) -> int
    decreases hi - i,
{
    if i >= hi {
        hi
    } else if s[i] == target {
        i
    } else {
        next_byte(s, i + 1, hi, target)
    }
}

pub fn find_byte(s: &[u8], lo: usize, hi: usize, target: u8) -> (r: usize)
    requires
        lo <= hi <= s@.len(),
    ensures
        r == next_byte(s@, lo as int, hi as int, target),
        lo <= r <= hi,
{
    let mut i: usize = lo;
    while i < hi && s[i] != target
        invariant
            lo <= i <= hi <= s@.len(),
            next_byte(s@, i as int, hi as int, target) == next_byte(
                s@,
                lo as int,
                hi as int,
                target,
            ),
        decreases hi - i,
    {
        i = i + 1;
    }
    i
}

/// First position in `[lo, hi)` that is not white space, or `hi`.
pub open spec fn trim_start(s: Seq<u8>, lo: int, hi: int) -> int
    decreases hi - lo,
{
    if lo < hi && is_blank(s[lo]) {
        trim_start(s, lo + 1, hi)
    } else {
        lo
    }
}

/// End of `[lo, hi)` without the white space at its end.
pub open spec fn trim_end(s: Seq<u8>, lo: int, hi: int) -> int
    decreases hi - lo,
{
    if lo < hi && is_blank(s[hi - 1]) {
        trim_end(s, lo, hi - 1)
    } else {
        hi
    }
}

/// The range without white space at its ends.
pub open spec fn trimmed(s: Seq<u8>, lo: int, hi: int) -> (int, int) {
    let a = trim_start(s, lo, hi);
    (a, trim_end(s, a, hi))
}

fn trim_range(s: &[u8], lo: usize, hi: usize) -> (r: (usize, usize))
    requires
        lo <= hi <= s@.len(),
    ensures
        (r.0 as int, r.1 as int) == trimmed(s@, lo as int, hi as int),
        lo <= r.0 <= r.1 <= hi,
{
    let mut a: usize = lo;
    while a < hi && is_blank_byte(s[a])
        invariant
            lo <= a <= hi <= s@.len(),
            trim_start(s@, a as int, hi as int) == trim_start(s@, lo as int, hi as int),
        decreases hi - a,
    {
        a = a + 1;
    }
    let mut b: usize = hi;
    while a < b && is_blank_byte(s[b - 1])
        invariant
            a <= b <= hi <= s@.len(),
            trim_end(s@, a as int, b as int) == trim_end(s@, a as int, hi as int),
        decreases b - a,
    {
        b = b - 1;
    }
    (a, b)
}

/// The whole word `w` stands at `a` in `[lo, hi)`.
pub open spec fn word_at(s: Seq<u8>, lo: int, hi: int, a: int, w: Seq<u8>) -> bool {
    &&& lo <= a
    &&& a + w.len() <= hi
    &&& s.subrange(a, a + w.len()) == w
    &&& forall|k: int| 0 <= k < w.len() ==> is_word(#[trigger] w[k])
    &&& a == lo || !is_word(s[a - 1])
    &&& a + w.len() == hi || !is_word(s[a + w.len()])
}

/// The whole word `w` stands somewhere in `[lo, hi)`.
pub open spec fn has_word(s: Seq<u8>, lo: int, hi: int, w: Seq<u8>) -> bool {
    exists|a: int| word_at(s, lo, hi, a, w)
}

fn is_word_at(s: &[u8], lo: usize, hi: usize, a: usize, w: &[u8]) -> (r: bool)
    requires
        lo <= a <= hi <= s@.len(),
    ensures
        r == word_at(s@, lo as int, hi as int, a as int, w@),
{
    if w.len() > hi - a {
        return false;
    }
    if a > lo && is_word_byte(s[a - 1]) {
        return false;
    }
    if w.len() < hi - a && is_word_byte(s[a + w.len()]) {
        return false;
    }
    let mut k: usize = 0;
    while k < w.len()
        invariant
            k <= w@.len() == w.len(),
            a + w@.len() <= hi <= s@.len(),
            forall|j: int| 0 <= j < k ==> s@[a + j] == #[trigger] w@[j] && is_word(w@[j]),
        decreases w@.len() - k,
    {
        if s[a + k] != w[k] || !is_word_byte(w[k]) {
            assert(s@.subrange(a as int, a + w@.len())[k as int] == s@[a + k]);
            return false;
        }
        k = k + 1;
    }
    assert(s@.subrange(a as int, a + w@.len()) =~= w@);
    true
}

/// Whether the whole word `w` stands in `[lo, hi)`.
pub fn contains_word(s: &[u8], lo: usize, hi: usize, w: &[u8]) -> (r: bool)
    requires
        lo <= hi <= s@.len(),
    ensures
        r == has_word(s@, lo as int, hi as int, w@),
{
    let mut a: usize = lo;
    while a < hi
        invariant
            lo <= a <= hi <= s@.len(),
            forall|j: int| lo <= j < a ==> !#[trigger] word_at(s@, lo as int, hi as int, j, w@),
        decreases hi - a,
    {
        if is_word_at(s, lo, hi, a, w) {
            return true;
        }
        a = a + 1;
    }
    let at_end = is_word_at(s, lo, hi, hi, w);
    proof {
        if !at_end {
            assert forall|j: int| !#[trigger] word_at(s@, lo as int, hi as int, j, w@) by {
                if lo <= j < hi {
                } else if j == hi {
                }
            }
        }
    }
    at_end
}

/// `[start, end)` is a nonempty part of the text.
pub open spec fn in_text(s: Seq<u8>, start: u32, end: u32) -> bool {
    start < end <= s.len()
}

/// The statement assigns to `leaf`, as far as its text tells: without a text, or a
/// statement in it, it is taken to. Everything before the first `=` is its left side.
pub open spec fn assigns_to_signal(text: Option<Seq<u8>>, start: u32, end: u32, leaf: Seq<u8>) -> bool {
    match text {
        None => true,
        Some(s) => !in_text(s, start, end) || has_word(
            s,
            start as int,
            next_byte(s, start as int, end as int, 61),
            leaf,
        ),
    }
}

/// Whether the statement assigns to `lhs_leaf`; taken to where the text does not tell.
pub fn span_assigns_to_signal(text: Option<&[u8]>, start: u32, end: u32, lhs_leaf: &[u8]) -> (r:
    bool)
    ensures
        r == assigns_to_signal(
            match text {
                Some(t) => Some(t@),
                None => None,
            },
            start,
            end,
            lhs_leaf@,
        ),
{
    match text {
        None => true,
        Some(t) => {
            let a = start as usize;
            let b = end as usize;
            if a >= b || b > t.len() {
                return true;
            }
            let eq = find_byte(t, a, b, 61);
            contains_word(t, a, eq, lhs_leaf)
        },
    }
}

/// The statement assigns to `leaf`: its text is there, and the word stands before its
/// first `=` outside brackets.
pub open spec fn assigns_to_lhs(text: Option<Seq<u8>>, start: u32, end: u32, leaf: Seq<u8>) -> bool {
    match text {
        None => false,
        Some(s) => in_text(s, start, end) && (match top_level(s, start as int, end as int, 61) {
            Some(eq) => has_word(s, start as int, eq, leaf),
            None => false,
        }),
    }
}

/// Whether the text of the statement assigns to `lhs_leaf`.
pub fn span_assigns_to_lhs(text: Option<&[u8]>, start: u32, end: u32, lhs_leaf: &[u8]) -> (r: bool)
    ensures
        r == assigns_to_lhs(
            match text {
                Some(t) => Some(t@),
                None => None,
            },
            start,
            end,
            lhs_leaf@,
        ),
{
    match text {
        None => false,
        Some(t) => {
            let a = start as usize;
            let b = end as usize;
            if a >= b || b > t.len() {
                return false;
            }
            match find_top_level(t, a, b, 61) {
                Some(eq) => contains_word(t, a, eq, lhs_leaf),
                None => false,
            }
        },
    }
}

/// A range of byte offsets.
pub type Range = (u32, u32);

/// Condition and chosen arm of a statement `lhs = cond ? a : b;`, without white space at
/// their ends; none where it has not that form. The arms may be conditionals themselves.
pub open spec fn conditional_parts(s: Seq<u8>, start: u32, end: u32, choice: BranchChoice) -> (
    Option<(int, int)>,
    Option<(int, int)>,
) {
    if !in_text(s, start, end) {
        (None, None)
    } else {
        match top_level(s, start as int, end as int, 61) {
            None => (None, None),
            Some(eq) => match top_level(s, eq + 1, end as int, 63) {
                None => (None, None),
                Some(q) => match arm_end(s, q + 1, end as int) {
                    None => (None, None),
                    Some(colon) => (
                        Some(trimmed(s, eq + 1, q)),
                        Some(
                            match choice {
                                BranchChoice::Then => trimmed(s, q + 1, colon),
                                BranchChoice::Else => trimmed(
                                    s,
                                    colon + 1,
                                    next_byte(s, colon + 1, end as int, 59),
                                ),
                            },
                        ),
                    ),
                },
            },
        }
    }
}

/// A range result, by its bounds.
pub open spec fn range_of(r: Option<Range>) -> Option<(int, int)> {
    match r {
        Some((a, b)) => Some((a as int, b as int)),
        None => None,
    }
}

/// Condition and chosen arm of a conditional assignment.
pub fn ternary_sub_spans(s: &[u8], stmt_start: u32, stmt_end: u32, choice: BranchChoice) -> (r: (
    Option<Range>,
    Option<Range>,
))
    ensures
        (range_of(r.0), range_of(r.1)) == conditional_parts(s@, stmt_start, stmt_end, choice),
{
    let start = stmt_start as usize;
    let end = stmt_end as usize;
    if start >= end || end > s.len() {
        return (None, None);
    }
    let eq = match find_top_level(s, start, end, 61) {
        Some(i) => i,
        None => {
            return (None, None);
        },
    };
    let q = match find_top_level(s, eq + 1, end, 63) {
        Some(i) => i,
        None => {
            return (None, None);
        },
    };
    let colon = match find_arm_end(s, q + 1, end) {
        Some(i) => i,
        None => {
            return (None, None);
        },
    };
    let (ca, cb) = trim_range(s, eq + 1, q);
    let (ba, bb) = match choice {
        BranchChoice::Then => trim_range(s, q + 1, colon),
        BranchChoice::Else => {
            let tail = find_byte(s, colon + 1, end, 59);
            trim_range(s, colon + 1, tail)
        },
    };
    (Some((ca as u32, cb as u32)), Some((ba as u32, bb as u32)))
}

/// The right-hand side of an assignment, without white space at its ends; none where it
/// is empty or there is no assignment.
pub open spec fn right_side(s: Seq<u8>, start: u32, end: u32) -> Option<(int, int)> {
    if !in_text(s, start, end) {
        None
    } else {
        match top_level(s, start as int, end as int, 61) {
            None => None,
            Some(eq) => {
                let (a, b) = trimmed(s, eq + 1, next_byte(s, eq + 1, end as int, 59));
                if a < b {
                    Some((a, b))
                } else {
                    None
                }
            },
        }
    }
}

/// Range of the right-hand side of an assignment.
pub fn rhs_expr_span(s: &[u8], stmt_start: u32, stmt_end: u32) -> (r: Option<Range>)
    ensures
        range_of(r) == right_side(s@, stmt_start, stmt_end),
{
    let start = stmt_start as usize;
    let end = stmt_end as usize;
    if start >= end || end > s.len() {
        return None;
    }
    match find_top_level(s, start, end, 61) {
        None => None,
        Some(eq) => {
            let hi = find_byte(s, eq + 1, end, 59);
            let (a, b) = trim_range(s, eq + 1, hi);
            if a < b {
                Some((a as u32, b as u32))
            } else {
                None
            }
        },
    }
}

/// Length of the white-space character at `i`, in the whole of Unicode; zero for another.
pub open spec fn space_at(s: Seq<u8>, i: int, hi: int) -> int {
    if i >= hi {
        0
    } else if s[i] == 32 || 9 <= s[i] <= 13 {
        1
    } else if i + 1 < hi && s[i] == 0xC2 && (s[i + 1] == 0x85 || s[i + 1] == 0xA0) {
        2
    } else if i + 2 < hi && wide_space(s[i], s[i + 1], s[i + 2]) {
        3
    } else {
        0
    }
}

/// The three bytes are a white-space character.
pub open spec fn wide_space(a: u8, b: u8, c: u8) -> bool {
    ||| a == 0xE1 && b == 0x9A && c == 0x80
    ||| a == 0xE2 && b == 0x80 && (0x80 <= c <= 0x8A || c == 0xA8 || c == 0xA9 || c == 0xAF)
    ||| a == 0xE2 && b == 0x81 && c == 0x9F
    ||| a == 0xE3 && b == 0x80 && c == 0x80
}

/// Length of the white-space character that ends at `hi`; zero for another.
pub open spec fn space_before(s: Seq<u8>, lo: int, hi: int) -> int {
    if hi <= lo {
        0
    } else if s[hi - 1] == 32 || 9 <= s[hi - 1] <= 13 {
        1
    } else if hi - 2 >= lo && s[hi - 2] == 0xC2 && (s[hi - 1] == 0x85 || s[hi - 1] == 0xA0) {
        2
    } else if hi - 3 >= lo && wide_space(s[hi - 3], s[hi - 2], s[hi - 1]) {
        3
    } else {
        0
    }
}

/// Start of `[lo, hi)` without white space.
pub open spec fn skip_spaces(s: Seq<u8>, lo: int, hi: int) -> int
    decreases hi - lo,
{
    if space_at(s, lo, hi) > 0 {
        skip_spaces(s, lo + space_at(s, lo, hi), hi)
    } else {
        lo
    }
}

/// End of `[lo, hi)` without white space.
pub open spec fn drop_spaces(s: Seq<u8>, lo: int, hi: int) -> int
    decreases hi - lo,
{
    if space_before(s, lo, hi) > 0 {
        drop_spaces(s, lo, hi - space_before(s, lo, hi))
    } else {
        hi
    }
}

fn is_wide_space(a: u8, b: u8, c: u8) -> (r: bool)
    ensures
        r == wide_space(a, b, c),
{
    (a == 0xE1 && b == 0x9A && c == 0x80) || (a == 0xE2 && b == 0x80 && ((0x80 <= c && c <= 0x8A)
        || c == 0xA8 || c == 0xA9 || c == 0xAF)) || (a == 0xE2 && b == 0x81 && c == 0x9F) || (a
        == 0xE3 && b == 0x80 && c == 0x80)
}

fn trim_line(s: &[u8], lo: usize, hi: usize) -> (r: (usize, usize))
    requires
        lo <= hi <= s@.len(),
    ensures
        r.0 == skip_spaces(s@, lo as int, hi as int),
        r.1 == drop_spaces(s@, r.0 as int, hi as int),
        lo <= r.0 <= r.1 <= hi,
{
    let mut a: usize = lo;
    while a < hi
        invariant_except_break
            lo <= a <= hi <= s@.len(),
            skip_spaces(s@, a as int, hi as int) == skip_spaces(s@, lo as int, hi as int),
        ensures
            lo <= a <= hi <= s@.len(),
            a == skip_spaces(s@, lo as int, hi as int),
        decreases hi - a,
    {
        let b = s[a];
        if b == 32 || (9 <= b && b <= 13) {
            a = a + 1;
        } else if hi - a > 1 && b == 0xC2 && (s[a + 1] == 0x85 || s[a + 1] == 0xA0) {
            a = a + 2;
        } else if hi - a > 2 && is_wide_space(b, s[a + 1], s[a + 2]) {
            a = a + 3;
        } else {
            break;
        }
    }
    let mut e: usize = hi;
    while a < e
        invariant_except_break
            a <= e <= hi <= s@.len(),
            drop_spaces(s@, a as int, e as int) == drop_spaces(s@, a as int, hi as int),
        ensures
            a <= e <= hi <= s@.len(),
            e == drop_spaces(s@, a as int, hi as int),
        decreases e - a,
    {
        let b = s[e - 1];
        if b == 32 || (9 <= b && b <= 13) {
            e = e - 1;
        } else if e - a > 1 && s[e - 2] == 0xC2 && (b == 0x85 || b == 0xA0) {
            e = e - 2;
        } else if e - a > 2 && is_wide_space(s[e - 3], s[e - 2], b) {
            e = e - 3;
        } else {
            break;
        }
    }
    (a, e)
}

/// `w` stands at `a` in front of `hi`.
pub open spec fn bytes_at(s: Seq<u8>, a: int, hi: int, w: Seq<u8>) -> bool {
    a + w.len() <= hi && s.subrange(a, a + w.len()) == w
}

fn has_bytes_at(s: &[u8], a: usize, hi: usize, w: &[u8]) -> (r: bool)
    requires
        a <= hi <= s@.len(),
    ensures
        r == bytes_at(s@, a as int, hi as int, w@),
{
    if w.len() > hi - a {
        return false;
    }
    let mut k: usize = 0;
    while k < w.len()
        invariant
            k <= w@.len() == w.len(),
            a + w@.len() <= hi <= s@.len(),
            forall|j: int| 0 <= j < k ==> s@[a + j] == #[trigger] w@[j],
        decreases w@.len() - k,
    {
        if s[a + k] != w[k] {
            assert(s@.subrange(a as int, a + w@.len())[k as int] == s@[a + k]);
            return false;
        }
        k = k + 1;
    }
    assert(s@.subrange(a as int, a + w@.len()) =~= w@);
    true
}

/// The bytes of `assign `.
pub open spec fn assign_word() -> Seq<u8> {
    seq![97u8, 115, 115, 105, 103, 110, 32]
}

/// `leaf` stands at `a` in front of `hi`, with one of two bytes after it.
pub open spec fn leaf_then(s: Seq<u8>, a: int, hi: int, leaf: Seq<u8>, x: u8, y: u8) -> bool {
    bytes_at(s, a, hi, leaf) && a + leaf.len() < hi && (s[a + leaf.len()] == x || s[a + leaf.len()]
        == y)
}

/// `<=` or `=` after `leaf`, directly or after one blank.
pub open spec fn leaf_assigned(s: Seq<u8>, a: int, hi: int, leaf: Seq<u8>) -> bool {
    bytes_at(s, a, hi, leaf) && {
        let i = a + leaf.len();
        ||| bytes_at(s, i, hi, seq![32u8, 60, 61])
        ||| bytes_at(s, i, hi, seq![60u8, 61])
        ||| bytes_at(s, i, hi, seq![32u8, 61])
        ||| bytes_at(s, i, hi, seq![61u8])
    }
}

/// The line `[lo, hi)` is an assignment to `leaf`: `assign leaf …=…`, `leaf <= …` or
/// `leaf = …`.
pub open spec fn line_assigns(s: Seq<u8>, lo: int, hi: int, leaf: Seq<u8>) -> bool {
    let a = skip_spaces(s, lo, hi);
    let e = drop_spaces(s, a, hi);
    &&& next_byte(s, a, e, 61) < e
    &&& {
        ||| bytes_at(s, a, e, assign_word()) && leaf_then(s, a + 7, e, leaf, 32, 61)
        ||| leaf_assigned(s, a, e, leaf)
    }
}

/// First line from `lo` on that is an assignment to `leaf`.
pub open spec fn assign_line(s: Seq<u8>, lo: int, leaf: Seq<u8>) -> Option<(int, int)>
    decreases s.len() - lo,
{
    if lo >= s.len() {
        None
    } else {
        let nl = next_byte(s, lo, s.len() as int, 10);
        let hi = if nl < s.len() && nl > lo && s[nl - 1] == 13 {
            nl - 1
        } else {
            nl
        };
        if line_assigns(s, lo, hi, leaf) {
            Some((lo, hi))
        } else if nl < lo || nl >= s.len() {
            None
        } else {
            assign_line(s, nl + 1, leaf)
        }
    }
}

fn is_assign_line(s: &[u8], lo: usize, hi: usize, leaf: &[u8]) -> (r: bool)
    requires
        lo <= hi <= s@.len(),
    ensures
        r == line_assigns(s@, lo as int, hi as int, leaf@),
{
    let (a, e) = trim_line(s, lo, hi);
    if find_byte(s, a, e, 61) >= e {
        return false;
    }
    let word: [u8; 7] = [97, 115, 115, 105, 103, 110, 32];
    assert(word@ =~= assign_word());
    if has_bytes_at(s, a, e, word.as_slice()) && has_bytes_at(s, a + 7, e, leaf) {
        let i: usize = a + 7 + leaf.len();
        if i < e && (s[i] == 32 || s[i] == 61) {
            return true;
        }
    }
    if !has_bytes_at(s, a, e, leaf) {
        return false;
    }
    let i: usize = a + leaf.len();
    let spaced_le: [u8; 3] = [32, 60, 61];
    let le: [u8; 2] = [60, 61];
    let spaced_eq: [u8; 2] = [32, 61];
    let eq: [u8; 1] = [61];
    assert(spaced_le@ =~= seq![32u8, 60, 61]);
    assert(le@ =~= seq![60u8, 61]);
    assert(spaced_eq@ =~= seq![32u8, 61]);
    assert(eq@ =~= seq![61u8]);
    has_bytes_at(s, i, e, spaced_le.as_slice()) || has_bytes_at(s, i, e, le.as_slice())
        || has_bytes_at(s, i, e, spaced_eq.as_slice()) || has_bytes_at(s, i, e, eq.as_slice())
}

/// Range of the first line that is an assignment to `lhs_leaf`.
pub fn find_assign_stmt_for_lhs(s: &[u8], lhs_leaf: &[u8]) -> (r: Option<Range>)
    ensures
        match assign_line(s@, 0, lhs_leaf@) {
            Some((a, b)) => r == Some((a as u32, b as u32)),
            None => r is None,
        },
{
    let mut lo: usize = 0;
    while lo < s.len()
        invariant
            lo <= s@.len(),
            assign_line(s@, lo as int, lhs_leaf@) == assign_line(s@, 0, lhs_leaf@),
        decreases s@.len() - lo,
    {
        let nl = find_byte(s, lo, s.len(), 10);
        let mut hi = nl;
        if nl < s.len() && nl > lo && s[nl - 1] == 13 {
            hi = nl - 1;
        }
        if is_assign_line(s, lo, hi, lhs_leaf) {
            return Some((lo as u32, hi as u32));
        }
        if nl >= s.len() {
            return None;
        }
        lo = nl + 1;
    }
    None
}

/// End of the identifier that goes on at `i`.
pub open spec fn word_end(s: Seq<u8>, i: int, hi: int) -> int
    decreases hi - i,
{
    if i < hi && is_word(s[i]) {
        word_end(s, i + 1, hi)
    } else {
        i
    }
}

/// Past the bracket that closes the `depth` ones open at `i`.
pub open spec fn bracket_end(s: Seq<u8>, i: int, hi: int, depth: nat) -> Option<int>
    decreases hi - i,
{
    if i >= hi {
        None
    } else if s[i] == 91 {
        bracket_end(s, i + 1, hi, depth + 1)
    } else if s[i] == 93 {
        if depth <= 1 {
            Some(i + 1)
        } else {
            bracket_end(s, i + 1, hi, (depth - 1) as nat)
        }
    } else {
        bracket_end(s, i + 1, hi, depth)
    }
}

/// End of the selects `[…]` that follow at `i`, and `i` where none does. White space may
/// stand in front of a select, but none behind the last one counts; `base` where a select
/// is not closed.
pub open spec fn selects_end(s: Seq<u8>, base: int, i: int, hi: int) -> int
    decreases hi - i,
{
    let k = trim_start(s, i, hi);
    if i <= k < hi && s[k] == 91 {
        match bracket_end(s, k + 1, hi, 1) {
            Some(e) => if e > i && e <= hi {
                selects_end(s, base, e, hi)
            } else {
                base
            },
            None => base,
        }
    } else {
        i
    }
}

fn end_of_word(s: &[u8], lo: usize, hi: usize) -> (r: usize)
    requires
        lo <= hi <= s@.len(),
    ensures
        r == word_end(s@, lo as int, hi as int),
        lo <= r <= hi,
        forall|k: int| lo <= k < r ==> is_word(#[trigger] s@[k]),
{
    let mut i: usize = lo;
    while i < hi && is_word_byte(s[i])
        invariant
            lo <= i <= hi <= s@.len(),
            word_end(s@, i as int, hi as int) == word_end(s@, lo as int, hi as int),
            forall|k: int| lo <= k < i ==> is_word(#[trigger] s@[k]),
        decreases hi - i,
    {
        i = i + 1;
    }
    i
}

fn end_of_bracket(s: &[u8], lo: usize, hi: usize) -> (r: Option<usize>)
    requires
        lo <= hi <= s@.len(),
    ensures
        match r {
            Some(e) => lo < e <= hi && bracket_end(s@, lo as int, hi as int, 1) == Some(e as int),
            None => bracket_end(s@, lo as int, hi as int, 1) is None,
        },
{
    let mut inner: usize = 0;
    let mut i: usize = lo;
    while i < hi
        invariant
            lo <= i <= hi <= s@.len(),
            inner <= i - lo,
            bracket_end(s@, i as int, hi as int, inner as nat + 1) == bracket_end(
                s@,
                lo as int,
                hi as int,
                1,
            ),
        decreases hi - i,
    {
        if s[i] == 91 {
            inner = inner + 1;
        } else if s[i] == 93 {
            if inner == 0 {
                return Some(i + 1);
            }
            inner = inner - 1;
        }
        i = i + 1;
    }
    None
}

fn end_of_selects(s: &[u8], base: usize, hi: usize) -> (r: usize)
    requires
        base <= hi <= s@.len(),
    ensures
        r == selects_end(s@, base as int, base as int, hi as int),
        base <= r <= hi,
{
    let mut i: usize = base;
    loop
        invariant
            base <= i <= hi <= s@.len(),
            selects_end(s@, base as int, i as int, hi as int) == selects_end(
                s@,
                base as int,
                base as int,
                hi as int,
            ),
        decreases hi - i,
    {
        let (k, _end) = trim_range(s, i, hi);
        if k < hi && s[k] == 91 {
            match end_of_bracket(s, k + 1, hi) {
                Some(e) => {
                    i = e;
                },
                None => {
                    return base;
                },
            }
        } else {
            return i;
        }
    }
}

/// The characters of ASCII bytes.
pub open spec fn ascii_text(s: Seq<u8>) -> Seq<char> {
    s.map_values(|b: u8| b as char)
}

/// Text of the ASCII bytes `[lo, hi)`.
pub fn ascii_string(s: &[u8], lo: usize, hi: usize) -> (r: String)
    requires
        lo <= hi <= s@.len(),
        forall|k: int| lo <= k < hi ==> (#[trigger] s@[k]) < 128,
    ensures
        r@ == ascii_text(s@.subrange(lo as int, hi as int)),
{
    let ghost part = s@.subrange(lo as int, hi as int);
    let mut out = String::new();
    let mut i: usize = lo;
    assert(out@ =~= ascii_text(part.take(0)));
    while i < hi
        invariant
            lo <= i <= hi <= s@.len(),
            part == s@.subrange(lo as int, hi as int),
            forall|k: int| lo <= k < hi ==> (#[trigger] s@[k]) < 128,
            out@ == ascii_text(part.take(i - lo)),
        decreases hi - i,
    {
        let ghost before = out@;
        push_char(&mut out, s[i] as char);
        assert(part[i - lo] == s@[i as int]);
        assert(out@ =~= ascii_text(part.take(i - lo + 1)));
        i = i + 1;
    }
    assert(part.take(i - lo) == part);
    out
}

/// First operand in `[i, hi)`, with its selects, that `wanted` tells; other identifiers
/// are passed.
pub open spec fn operand_from(
    s: Seq<u8>,
    i: int,
    hi: int,
    wanted: spec_fn(Seq<char>) -> bool,
) -> Option<(int, int)>
    decreases hi - i,
{
    if i >= hi {
        None
    } else if !starts_word(s[i]) {
        operand_from(s, i + 1, hi, wanted)
    } else {
        let j = word_end(s, i + 1, hi);
        if wanted(ascii_text(s.subrange(i, j))) {
            Some((i, selects_end(s, j, j, hi)))
        } else if i < j <= hi {
            operand_from(s, j, hi, wanted)
        } else {
            None
        }
    }
}

/// The next identifier in `[lo, hi)`: its range, or none.
pub open spec fn next_word(s: Seq<u8>, i: int, hi: int) -> Option<(int, int)>
    decreases hi - i,
{
    if i >= hi {
        None
    } else if starts_word(s[i]) {
        Some((i, word_end(s, i + 1, hi)))
    } else {
        next_word(s, i + 1, hi)
    }
}

/// Finds the next identifier.
pub fn find_word(s: &[u8], lo: usize, hi: usize) -> (r: Option<(usize, usize)>)
    requires
        lo <= hi <= s@.len(),
    ensures
        match r {
            Some((a, b)) => lo <= a < b <= hi && next_word(s@, lo as int, hi as int) == Some(
                (a as int, b as int),
            ) && forall|k: int| a <= k < b ==> (#[trigger] s@[k]) < 128,
            None => next_word(s@, lo as int, hi as int) is None,
        },
{
    let mut i: usize = lo;
    while i < hi
        invariant
            lo <= i <= hi <= s@.len(),
            next_word(s@, i as int, hi as int) == next_word(s@, lo as int, hi as int),
        decreases hi - i,
    {
        if starts_word_byte(s[i]) {
            let j = end_of_word(s, i + 1, hi);
            return Some((i, j));
        }
        i = i + 1;
    }
    None
}

/// Searching operand by operand is the same as searching identifier by identifier.
pub proof fn lemma_operand_by_word(
    s: Seq<u8>,
    i: int,
    hi: int,
    wanted: spec_fn(Seq<char>) -> bool,
)
    requires
        0 <= i <= hi <= s.len(),
    ensures
        match next_word(s, i, hi) {
            None => operand_from(s, i, hi, wanted) is None,
            Some((a, b)) => operand_from(s, i, hi, wanted) == if wanted(
                ascii_text(s.subrange(a, b)),
            ) {
                Some((a, selects_end(s, b, b, hi)))
            } else {
                operand_from(s, b, hi, wanted)
            },
        },
    decreases hi - i,
{
    if i < hi && !starts_word(s[i]) {
        lemma_operand_by_word(s, i + 1, hi, wanted);
    } else if i < hi {
        lemma_word_end(s, i + 1, hi);
    }
}

proof fn lemma_word_end(s: Seq<u8>, i: int, hi: int)
    requires
        0 <= i <= hi <= s.len(),
    ensures
        i <= word_end(s, i, hi) <= hi,
    decreases hi - i,
{
    if i < hi && is_word(s[i]) {
        lemma_word_end(s, i + 1, hi);
    }
}

/// End of the selects after an operand.
pub fn operand_end(s: &[u8], word_end: usize, hi: usize) -> (r: usize)
    requires
        word_end <= hi <= s@.len(),
    ensures
        r == selects_end(s@, word_end as int, word_end as int, hi as int),
        word_end <= r <= hi,
{
    end_of_selects(s, word_end, hi)
}

} // verus!
