//! Path texts: file names, extensions, which sources count, and their order.
//!
//! A path is a text with `/` between its parts.
use crate::text::{chars_of, str_eq, str_lt, string_from};
use vstd::prelude::*;

verus! {

/// ASCII letters in lower case; everything else as it is. No other character has one of
/// the letters that are looked for here as its lower-case form.
pub open spec fn lower(c: char) -> char {
    if 'A' <= c && c <= 'Z' {
        ((c as u32 + 32) as u32) as char
    } else {
        c
    }
}

pub open spec fn lowered(s: Seq<char>) -> Seq<char> {
    s.map_values(|c: char| lower(c))
}

/// `needle` stands in `s` at `i`.
pub open spec fn stands_at(s: Seq<char>, needle: Seq<char>, i: int) -> bool {
    0 <= i && i + needle.len() <= s.len() && s.subrange(i, i + needle.len()) == needle
}

pub open spec fn has_text(s: Seq<char>, needle: Seq<char>) -> bool {
    exists|i: int| stands_at(s, needle, i)
}

pub open spec fn has_prefix(s: Seq<char>, needle: Seq<char>) -> bool {
    stands_at(s, needle, 0)
}

pub open spec fn has_suffix(s: Seq<char>, needle: Seq<char>) -> bool {
    stands_at(s, needle, s.len() - needle.len())
}

fn lower_char(c: char) -> (r: char)
    ensures
        r == lower(c),
{
    match c {
        'A' => 'a',
        'B' => 'b',
        'C' => 'c',
        'D' => 'd',
        'E' => 'e',
        'F' => 'f',
        'G' => 'g',
        'H' => 'h',
        'I' => 'i',
        'J' => 'j',
        'K' => 'k',
        'L' => 'l',
        'M' => 'm',
        'N' => 'n',
        'O' => 'o',
        'P' => 'p',
        'Q' => 'q',
        'R' => 'r',
        'S' => 's',
        'T' => 't',
        'U' => 'u',
        'V' => 'v',
        'W' => 'w',
        'X' => 'x',
        'Y' => 'y',
        'Z' => 'z',
        _ => c,
    }
}

fn lower_chars(text: &str) -> (r: Vec<char>)
    ensures
        r@ == lowered(text@),
{
    let chars = chars_of(text);
    let mut out: Vec<char> = Vec::new();
    let mut i: usize = 0;
    while i < chars.len()
        invariant
            i <= chars@.len(),
            out@.len() == i,
            forall|j: int| 0 <= j < i ==> #[trigger] out@[j] == lower(chars@[j]),
        decreases chars@.len() - i,
    {
        out.push(lower_char(chars[i]));
        i = i + 1;
    }
    assert(out@ =~= lowered(text@));
    out
}

/// A text with ASCII letters in lower case.
pub fn lower_text(text: &str) -> (r: String)
    ensures
        r@ == lowered(text@),
{
    let low = lower_chars(text);
    let r = string_from(low.as_slice(), 0, low.len());
    assert(r@ =~= lowered(text@));
    r
}

fn text_at(s: &[char], needle: &str, i: usize) -> (r: bool)
    ensures
        r == stands_at(s@, needle@, i as int),
{
    let n = chars_of(needle);
    assert(s@.len() == s.len());
    if n.len() > s.len() || i > s.len() - n.len() {
        return false;
    }
    let mut k: usize = 0;
    while k < n.len()
        invariant
            k <= n@.len(),
            n@ == needle@,
            i + n@.len() <= s@.len() == s.len(),
            forall|j: int| 0 <= j < k ==> s@[i + j] == #[trigger] n@[j],
        decreases n@.len() - k,
    {
        if s[i + k] != n[k] {
            assert(s@.subrange(i as int, i + n@.len())[k as int] != n@[k as int]);
            return false;
        }
        k = k + 1;
    }
    assert(s@.subrange(i as int, i + n@.len()) =~= n@);
    true
}

fn text_within(s: &[char], needle: &str) -> (r: bool)
    ensures
        r == has_text(s@, needle@),
{
    let mut i: usize = 0;
    while i < s.len()
        invariant
            i <= s@.len(),
            forall|j: int| 0 <= j < i ==> !#[trigger] stands_at(s@, needle@, j),
        decreases s@.len() - i,
    {
        if text_at(s, needle, i) {
            return true;
        }
        i = i + 1;
    }
    let at_end = text_at(s, needle, s.len());
    proof {
        if !at_end {
            assert forall|j: int| !#[trigger] stands_at(s@, needle@, j) by {
                if 0 <= j < s@.len() {
                } else if j == s@.len() {
                }
            }
        }
    }
    at_end
}

fn text_ends(s: &[char], needle: &str) -> (r: bool)
    ensures
        r == has_suffix(s@, needle@),
{
    let n = chars_of(needle);
    if n.len() > s.len() {
        false
    } else {
        text_at(s, needle, s.len() - n.len())
    }
}

/// Part of `s` after its last `sep` before `end`, as the position where it starts.
pub open spec fn part_start(s: Seq<char>, sep: char, end: int) -> int
    decreases end,
{
    if end <= 0 {
        0
    } else if s[end - 1] == sep {
        end
    } else {
        part_start(s, sep, end - 1)
    }
}

fn start_of_part(s: &[char], sep: char, end: usize) -> (r: usize)
    requires
        end <= s@.len(),
    ensures
        r == part_start(s@, sep, end as int),
        r <= end,
{
    let mut i: usize = end;
    while i > 0 && s[i - 1] != sep
        invariant
            i <= end <= s@.len(),
            part_start(s@, sep, i as int) == part_start(s@, sep, end as int),
        decreases i,
    {
        i = i - 1;
    }
    i
}

/// The last part of a path; none for a path that is empty or ends in `..`. Separators and
/// `.` at the end do not count.
pub open spec fn file_name(p: Seq<char>) -> Option<Seq<char>>
    decreases p.len(),
{
    if p.len() == 0 {
        None
    } else if p.last() == '/' {
        file_name(p.drop_last())
    } else {
        let start = part_start(p, '/', p.len() as int);
        let part = p.subrange(start, p.len() as int);
        if part == seq!['.'] {
            if start == 0 {
                None
            } else {
                file_name(p.drop_last())
            }
        } else if part == seq!['.', '.'] {
            None
        } else {
            Some(part)
        }
    }
}

fn name_range(s: &[char]) -> (r: Option<(usize, usize)>)
    ensures
        match r {
            Some((lo, hi)) => lo <= hi <= s@.len() && file_name(s@) == Some(
                s@.subrange(lo as int, hi as int),
            ),
            None => file_name(s@) is None,
        },
{
    let mut end: usize = s.len();
    assert(s@.take(end as int) == s@);
    while end > 0
        invariant
            end <= s@.len(),
            file_name(s@) == file_name(s@.take(end as int)),
        decreases end,
    {
        let ghost p = s@.take(end as int);
        assert(p.drop_last() == s@.take(end - 1));
        if s[end - 1] == '/' {
            end = end - 1;
        } else {
            let start = start_of_part(s, '/', end);
            proof {
                lemma_part_start_prefix(s@, '/', end as int, end as int);
                lemma_part_start_nonempty(s@, '/', end as int);
                assert(p.subrange(start as int, end as int) == s@.subrange(
                    start as int,
                    end as int,
                ));
            }
            let ghost part = p.subrange(start as int, end as int);
            if end - start == 1 && s[start] == '.' {
                assert(part =~= seq!['.']);
                if start == 0 {
                    return None;
                }
                end = end - 1;
            } else if end - start == 2 && s[start] == '.' && s[start + 1] == '.' {
                assert(part =~= seq!['.', '.']);
                assert(part.len() == 2);
                return None;
            } else {
                proof {
                    if part == seq!['.'] {
                        assert(part.len() == 1 && part[0] == '.');
                    }
                    if part == seq!['.', '.'] {
                        assert(part.len() == 2 && part[0] == '.' && part[1] == '.');
                    }
                }
                return Some((start, end));
            }
        }
    }
    None
}

proof fn lemma_part_start_nonempty(s: Seq<char>, sep: char, end: int)
    requires
        0 < end <= s.len(),
        s[end - 1] != sep,
    ensures
        0 <= part_start(s, sep, end) < end,
    decreases end,
{
    if end > 1 && s[end - 2] != sep {
        lemma_part_start_nonempty(s, sep, end - 1);
    } else {
        reveal_with_fuel(part_start, 3);
    }
}

proof fn lemma_part_start_prefix(s: Seq<char>, sep: char, end: int, k: int)
    requires
        0 <= end <= k <= s.len(),
    ensures
        part_start(s.take(k), sep, end) == part_start(s, sep, end),
    decreases end,
{
    if end > 0 && s[end - 1] != sep {
        lemma_part_start_prefix(s, sep, end - 1, k);
    }
}

/// Extension of a file name: what follows its last point, unless the point comes first.
pub open spec fn extension(name: Seq<char>) -> Option<Seq<char>> {
    let start = part_start(name, '.', name.len() as int);
    if start <= 1 {
        None
    } else {
        Some(name.skip(start))
    }
}

/// The path names a Verilog source: its extension is `v` or `sv` in any case.
pub open spec fn names_source(path: Seq<char>) -> bool {
    match file_name(path) {
        None => false,
        Some(name) => match extension(name) {
            None => false,
            Some(ext) => lowered(ext) == "v"@ || lowered(ext) == "sv"@,
        },
    }
}

/// Whether `path` is treated as a Verilog source.
pub fn is_verilog_file(path: &str) -> (r: bool)
    ensures
        r == names_source(path@),
{
    let chars = chars_of(path);
    match name_range(chars.as_slice()) {
        None => false,
        Some((lo, hi)) => {
            let name = string_from(chars.as_slice(), lo, hi);
            let letters = chars_of(name.as_str());
            let start = start_of_part(letters.as_slice(), '.', letters.len());
            if start <= 1 {
                return false;
            }
            let ext = string_from(letters.as_slice(), start, letters.len());
            assert(ext@ =~= name@.skip(start as int));
            let text = lower_text(ext.as_str());
            str_eq(text.as_str(), "v") || str_eq(text.as_str(), "sv")
        },
    }
}

/// A file name by which a testbench is told.
pub open spec fn bench_file(name: Seq<char>) -> bool {
    let n = lowered(name);
    has_text(n, "testbench"@) || has_suffix(n, "_tb.v"@) || has_prefix(n, "tb_"@)
}

/// The path names a file by which a testbench is told.
pub open spec fn bench_path(path: Seq<char>) -> bool {
    match file_name(path) {
        Some(name) => bench_file(name),
        None => false,
    }
}

/// Whether the name of the source file looks like that of a testbench.
pub fn source_file_looks_like_testbench(path: &str) -> (r: bool)
    ensures
        r == bench_path(path@),
{
    let chars = chars_of(path);
    match name_range(chars.as_slice()) {
        None => false,
        Some((lo, hi)) => {
            let name = string_from(chars.as_slice(), lo, hi);
            let n = lower_chars(name.as_str());
            text_within(n.as_slice(), "testbench") || text_ends(n.as_slice(), "_tb.v") || text_at(
                n.as_slice(),
                "tb_",
                0,
            )
        },
    }
}

/// A module name by which a testbench is told.
pub open spec fn bench_module(name: Seq<char>) -> bool {
    let n = lowered(name);
    has_text(n, "testbench"@) || has_text(n, "test_bench"@) || has_suffix(n, "_tb"@) || has_prefix(
        n,
        "tb_"@,
    )
}

/// Whether the name of a module looks like that of a testbench.
pub fn module_looks_like_testbench(name: &str) -> (r: bool)
    ensures
        r == bench_module(name@),
{
    let n = lower_chars(name);
    text_within(n.as_slice(), "testbench") || text_within(n.as_slice(), "test_bench") || text_ends(
        n.as_slice(),
        "_tb",
    ) || text_at(n.as_slice(), "tb_", 0)
}

/// Testbenches come first.
pub open spec fn path_rank(path: Seq<char>) -> u8 {
    if bench_path(path) {
        0
    } else {
        1
    }
}

pub fn tb_path_rank(path: &str) -> (r: u8)
    ensures
        r == path_rank(path@),
{
    if source_file_looks_like_testbench(path) {
        0
    } else {
        1
    }
}

/// Directories that hold no sources of the project.
pub open spec fn skipped_dir(name: Seq<char>) -> bool {
    name == "target"@ || name == "node_modules"@ || name == ".git"@ || name == "dist"@ || name
        == "tests"@ || name == "fixtures"@
}

/// Whether indexing passes over a directory; `artifacts` is passed over too.
pub fn is_skipped_dir(name: &str) -> (r: bool)
    ensures
        r == (skipped_dir(name@) || name@ == "artifacts"@),
{
    is_unanalyzed_dir(name) || str_eq(name, "artifacts")
}

/// Whether the semantic analysis passes over a directory.
pub fn is_unanalyzed_dir(name: &str) -> (r: bool)
    ensures
        r == skipped_dir(name@),
{
    str_eq(name, "target") || str_eq(name, "node_modules") || str_eq(name, ".git") || str_eq(
        name,
        "dist",
    ) || str_eq(name, "tests") || str_eq(name, "fixtures")
}

/// The parts of a path: the root (0), a leading `.` (1), `..` (2) and names (3), each with
/// its text where it is a name.
pub open spec fn path_parts(p: Seq<char>) -> Seq<(u8, Seq<char>)>
    decreases p.len(),
{
    if p.len() == 0 {
        Seq::empty()
    } else if p.last() == '/' {
        if p.len() == 1 {
            seq![(0u8, Seq::<char>::empty())]
        } else {
            path_parts(p.drop_last())
        }
    } else {
        let start = part_start(p, '/', p.len() as int);
        let part = p.subrange(start, p.len() as int);
        let rest = if 0 < start < p.len() {
            path_parts(p.take(start))
        } else {
            Seq::empty()
        };
        if part == seq!['.'] {
            if start == 0 {
                seq![(1u8, Seq::<char>::empty())]
            } else {
                rest
            }
        } else if part == seq!['.', '.'] {
            rest.push((2u8, Seq::empty()))
        } else {
            rest.push((3u8, part))
        }
    }
}

pub open spec fn part_lt(a: (u8, Seq<char>), b: (u8, Seq<char>)) -> bool {
    a.0 < b.0 || (a.0 == b.0 && crate::text::text_lt(a.1, b.1))
}

/// Lexicographic order of paths, part by part.
pub open spec fn parts_lt(a: Seq<(u8, Seq<char>)>, b: Seq<(u8, Seq<char>)>) -> bool
    decreases a.len(),
{
    if b.len() == 0 {
        false
    } else if a.len() == 0 {
        true
    } else if a[0] != b[0] {
        part_lt(a[0], b[0])
    } else {
        parts_lt(a.drop_first(), b.drop_first())
    }
}

/// The order of sources: testbenches first, then by path.
pub open spec fn source_before(a: Seq<char>, b: Seq<char>) -> bool {
    path_rank(a) < path_rank(b) || (path_rank(a) == path_rank(b) && parts_lt(
        path_parts(a),
        path_parts(b),
    ))
}

pub proof fn lemma_text_lt_total(a: Seq<char>, b: Seq<char>)
    ensures
        a == b || crate::text::text_lt(a, b) || crate::text::text_lt(b, a),
    decreases a.len(),
{
    if a.len() == 0 && b.len() == 0 {
        assert(a =~= b);
    } else if a.len() > 0 && b.len() > 0 && a[0] == b[0] {
        lemma_text_lt_total(a.drop_first(), b.drop_first());
        if a.drop_first() == b.drop_first() {
            assert(a =~= seq![a[0]] + a.drop_first());
            assert(b =~= seq![b[0]] + b.drop_first());
        }
    }
}

pub proof fn lemma_text_lt_trans(a: Seq<char>, b: Seq<char>, c: Seq<char>)
    requires
        crate::text::text_lt(a, b),
        crate::text::text_lt(b, c),
    ensures
        crate::text::text_lt(a, c),
    decreases a.len(),
{
    if a.len() > 0 && a[0] == b[0] && b[0] == c[0] {
        lemma_text_lt_trans(a.drop_first(), b.drop_first(), c.drop_first());
    }
}

pub proof fn lemma_text_lt_irreflexive(a: Seq<char>)
    ensures
        !crate::text::text_lt(a, a),
    decreases a.len(),
{
    if a.len() > 0 {
        lemma_text_lt_irreflexive(a.drop_first());
    }
}

proof fn lemma_parts_lt_total(a: Seq<(u8, Seq<char>)>, b: Seq<(u8, Seq<char>)>)
    ensures
        a == b || parts_lt(a, b) || parts_lt(b, a),
    decreases a.len(),
{
    if a.len() == 0 && b.len() == 0 {
        assert(a =~= b);
    } else if a.len() > 0 && b.len() > 0 {
        if a[0] == b[0] {
            lemma_parts_lt_total(a.drop_first(), b.drop_first());
            if a.drop_first() == b.drop_first() {
                assert(a =~= seq![a[0]] + a.drop_first());
                assert(b =~= seq![b[0]] + b.drop_first());
            }
        } else {
            lemma_text_lt_total(a[0].1, b[0].1);
        }
    }
}

proof fn lemma_parts_lt_trans(
    a: Seq<(u8, Seq<char>)>,
    b: Seq<(u8, Seq<char>)>,
    c: Seq<(u8, Seq<char>)>,
)
    requires
        parts_lt(a, b),
        parts_lt(b, c),
    ensures
        parts_lt(a, c),
    decreases a.len(),
{
    if a.len() > 0 {
        if a[0] == b[0] && b[0] == c[0] {
            lemma_parts_lt_trans(a.drop_first(), b.drop_first(), c.drop_first());
        } else if a[0] != b[0] && b[0] != c[0] {
            if a[0].0 == b[0].0 && b[0].0 == c[0].0 {
                lemma_text_lt_trans(a[0].1, b[0].1, c[0].1);
            }
            if a[0] == c[0] {
                lemma_text_lt_irreflexive(a[0].1);
            }
        }
    }
}

proof fn lemma_source_before_trans(a: Seq<char>, b: Seq<char>, c: Seq<char>)
    requires
        source_before(a, b),
        source_before(b, c),
    ensures
        source_before(a, c),
{
    if path_rank(a) == path_rank(b) && path_rank(b) == path_rank(c) {
        lemma_parts_lt_trans(path_parts(a), path_parts(b), path_parts(c));
    }
}

/// Views of a list of parts.
pub open spec fn parts_view(s: Seq<(u8, String)>) -> Seq<(u8, Seq<char>)> {
    Seq::new(s.len(), |i: int| (s[i].0, s[i].1@))
}

fn parts_to(chars: &[char], end: usize) -> (r: Vec<(u8, String)>)
    requires
        end <= chars@.len(),
    ensures
        parts_view(r@) == path_parts(chars@.take(end as int)),
    decreases end,
{
    let ghost p = chars@.take(end as int);
    let mut out: Vec<(u8, String)> = Vec::new();
    assert(parts_view(out@) =~= Seq::empty());
    if end == 0 {
        return out;
    }
    if chars[end - 1] == '/' {
        if end == 1 {
            out.push((0, String::new()));
            assert(out@[0].1@ =~= Seq::<char>::empty());
            assert(parts_view(out@) =~= seq![(0u8, Seq::<char>::empty())]);
            return out;
        }
        assert(p.drop_last() == chars@.take(end - 1));
        return parts_to(chars, end - 1);
    }
    let start = start_of_part(chars, '/', end);
    proof {
        lemma_part_start_prefix(chars@, '/', end as int, end as int);
        lemma_part_start_nonempty(chars@, '/', end as int);
        assert(p.subrange(start as int, end as int) == chars@.subrange(start as int, end as int));
        assert(p.take(start as int) == chars@.take(start as int));
    }
    let ghost part = p.subrange(start as int, end as int);
    if start > 0 {
        out = parts_to(chars, start);
    }
    let ghost rest = parts_view(out@);
    if end - start == 1 && chars[start] == '.' {
        assert(part =~= seq!['.']);
        if start == 0 {
            out.push((1, String::new()));
            assert(out@[0].1@ =~= Seq::<char>::empty());
            assert(parts_view(out@) =~= seq![(1u8, Seq::<char>::empty())]);
        }
        return out;
    }
    if end - start == 2 && chars[start] == '.' && chars[start + 1] == '.' {
        assert(part =~= seq!['.', '.']);
        assert(part.len() == 2);
        let none = String::new();
        assert(none@ =~= Seq::<char>::empty());
        out.push((2, none));
        assert(parts_view(out@) =~= rest.push((2u8, Seq::<char>::empty())));
        return out;
    }
    proof {
        if part == seq!['.'] {
            assert(part.len() == 1 && part[0] == '.');
        }
        if part == seq!['.', '.'] {
            assert(part.len() == 2 && part[0] == '.' && part[1] == '.');
        }
    }
    let name = string_from(chars, start, end);
    out.push((3, name));
    assert(parts_view(out@) =~= rest.push((3u8, part)));
    out
}

fn parts_of(path: &str) -> (r: Vec<(u8, String)>)
    ensures
        parts_view(r@) == path_parts(path@),
{
    let chars = chars_of(path);
    assert(chars@.take(chars@.len() as int) == chars@);
    parts_to(chars.as_slice(), chars.len())
}

/// How two paths stand to each other part by part: equal, or in which order.
fn parts_order(a: &Vec<(u8, String)>, b: &Vec<(u8, String)>) -> (r: (bool, bool))
    ensures
        r.0 == (parts_view(a@) == parts_view(b@)),
        r.1 == parts_lt(parts_view(a@), parts_view(b@)),
{
    let ghost x = parts_view(a@);
    let ghost y = parts_view(b@);
    let mut i: usize = 0;
    assert(x.skip(0) == x);
    assert(y.skip(0) == y);
    while i < a.len() && i < b.len()
        invariant
            i <= a@.len(),
            i <= b@.len(),
            x == parts_view(a@),
            y == parts_view(b@),
            forall|j: int| 0 <= j < i ==> x[j] == y[j],
            parts_lt(x, y) == parts_lt(x.skip(i as int), y.skip(i as int)),
        decreases a@.len() - i,
    {
        assert(x.skip(i as int).drop_first() == x.skip(i + 1));
        assert(y.skip(i as int).drop_first() == y.skip(i + 1));
        assert(x[i as int] == (a@[i as int].0, a@[i as int].1@));
        assert(y[i as int] == (b@[i as int].0, b@[i as int].1@));
        if a[i].0 != b[i].0 {
            return (false, a[i].0 < b[i].0);
        }
        if !str_eq(a[i].1.as_str(), b[i].1.as_str()) {
            return (false, str_lt(a[i].1.as_str(), b[i].1.as_str()));
        }
        i = i + 1;
    }
    proof {
        if x.len() == y.len() {
            assert(x =~= y);
        }
    }
    (a.len() == b.len(), i < b.len())
}

/// `k` is the first of the paths to name what it names.
pub open spec fn first_of_its_name(paths: Seq<String>, k: int) -> bool {
    0 <= k < paths.len() && forall|j: int|
        0 <= j < k ==> path_parts((#[trigger] paths[j])@) != path_parts(paths[k]@)
}

/// `x` is one of the paths, the first to name what it names.
pub open spec fn taken_from(paths: Seq<String>, x: Seq<char>) -> bool {
    exists|k: int| #[trigger] first_of_its_name(paths, k) && x == paths[k]@
}

/// One of the paths in `r` names what `x` names.
pub open spec fn named_in(r: Seq<String>, x: Seq<char>) -> bool {
    exists|i: int| 0 <= i < r.len() && path_parts((#[trigger] r[i])@) == path_parts(x)
}

/// `r` lists what `paths` name, each once and in the order of sources.
pub open spec fn ordered_sources(paths: Seq<String>, r: Seq<String>) -> bool {
    &&& forall|i: int, j: int|
        0 <= i < j < r.len() ==> source_before((#[trigger] r[i])@, (#[trigger] r[j])@)
    &&& forall|i: int|
        0 <= i < r.len() ==> taken_from(paths, (#[trigger] r[i])@)
    &&& forall|k: int| 0 <= k < paths.len() ==> named_in(r, (#[trigger] paths[k])@)
}

fn source_place(list: &Vec<String>, path: &str) -> (r: Option<usize>)
    requires
        forall|i: int, j: int|
            0 <= i < j < list@.len() ==> source_before(
                (#[trigger] list@[i])@,
                (#[trigger] list@[j])@,
            ),
    ensures
        match r {
            None => exists|i: int|
                0 <= i < list@.len() && path_parts((#[trigger] list@[i])@) == path_parts(path@),
            Some(at) => {
                &&& at <= list@.len()
                &&& forall|i: int|
                    0 <= i < list@.len() ==> path_parts((#[trigger] list@[i])@) != path_parts(
                        path@,
                    )
                &&& forall|i: int| 0 <= i < at ==> source_before((#[trigger] list@[i])@, path@)
                &&& forall|i: int|
                    at <= i < list@.len() ==> source_before(path@, (#[trigger] list@[i])@)
            },
        },
{
    let rank = tb_path_rank(path);
    let parts = parts_of(path);
    let mut place: Option<usize> = None;
    let mut i: usize = 0;
    while i < list.len()
        invariant
            i <= list@.len(),
            rank == path_rank(path@),
            parts_view(parts@) == path_parts(path@),
            forall|i: int, j: int|
                0 <= i < j < list@.len() ==> source_before(
                    (#[trigger] list@[i])@,
                    (#[trigger] list@[j])@,
                ),
            forall|j: int|
                0 <= j < i ==> path_parts((#[trigger] list@[j])@) != path_parts(path@),
            match place {
                None => forall|j: int| 0 <= j < i ==> source_before((#[trigger] list@[j])@, path@),
                Some(at) => {
                    &&& at < i
                    &&& forall|j: int| 0 <= j < at ==> source_before((#[trigger] list@[j])@, path@)
                    &&& source_before(path@, list@[at as int]@)
                },
            },
        decreases list@.len() - i,
    {
        let other_rank = tb_path_rank(list[i].as_str());
        let other = parts_of(list[i].as_str());
        let (same, before) = parts_order(&parts, &other);
        if same {
            return None;
        }
        if place.is_none() {
            if rank < other_rank || (rank == other_rank && before) {
                place = Some(i);
            } else {
                proof {
                    lemma_parts_lt_total(path_parts(path@), path_parts(list@[i as int]@));
                }
            }
        }
        i = i + 1;
    }
    match place {
        Some(at) => {
            proof {
                assert forall|j: int| at <= j < list@.len() implies source_before(
                    path@,
                    (#[trigger] list@[j])@,
                ) by {
                    if j > at {
                        lemma_source_before_trans(path@, list@[at as int]@, list@[j]@);
                    }
                }
            }
            Some(at)
        },
        None => Some(list.len()),
    }
}

/// Sources without repetitions, testbenches first and then by path.
pub fn order_source_paths(paths: Vec<String>) -> (r: Vec<String>)
    ensures
        ordered_sources(paths@, r@),
{
    let mut out: Vec<String> = Vec::new();
    let ghost mut from: Seq<int> = Seq::empty();
    let mut k: usize = 0;
    while k < paths.len()
        invariant
            k <= paths@.len(),
            from.len() == out@.len(),
            forall|i: int, j: int|
                0 <= i < j < out@.len() ==> source_before(
                    (#[trigger] out@[i])@,
                    (#[trigger] out@[j])@,
                ),
            forall|i: int|
                0 <= i < out@.len() ==> first_of_its_name(paths@, #[trigger] from[i]) && from[i] < k
                    && out@[i]@ == paths@[from[i]]@,
            forall|j: int| 0 <= j < k ==> named_in(out@, (#[trigger] paths@[j])@),
        decreases paths@.len() - k,
    {
        let ghost before = out@;
        let ghost from0 = from;
        match source_place(&out, paths[k].as_str()) {
            None => {},
            Some(at) => {
                out.insert(at, paths[k].clone());
                proof {
                    from = from.insert(at as int, k as int);
                    assert(out@ == before.insert(at as int, out@[at as int]));
                    assert forall|i: int, j: int| 0 <= i < j < out@.len() implies source_before(
                        (#[trigger] out@[i])@,
                        (#[trigger] out@[j])@,
                    ) by {
                        let i0 = if i < at {
                            i
                        } else {
                            i - 1
                        };
                        let j0 = if j < at {
                            j
                        } else {
                            j - 1
                        };
                        if i != at {
                            assert(out@[i] == before[i0]);
                        }
                        if j != at {
                            assert(out@[j] == before[j0]);
                        }
                    }
                    assert(first_of_its_name(paths@, k as int)) by {
                        assert forall|j: int| 0 <= j < k implies path_parts(
                            (#[trigger] paths@[j])@,
                        ) != path_parts(paths@[k as int]@) by {
                            assert(named_in(before, paths@[j]@));
                            let i = choose|i: int|
                                0 <= i < before.len() && path_parts((#[trigger] before[i])@)
                                    == path_parts(paths@[j]@);
                            assert(path_parts(before[i]@) != path_parts(paths@[k as int]@));
                        }
                    }
                    assert forall|i: int| 0 <= i < out@.len() implies first_of_its_name(
                        paths@,
                        #[trigger] from[i],
                    ) && from[i] < k + 1 && out@[i]@ == paths@[from[i]]@ by {
                        let i0 = if i < at {
                            i
                        } else {
                            i - 1
                        };
                        if i != at {
                            assert(out@[i] == before[i0]);
                            assert(from[i] == from0[i0]);
                        }
                    }
                    assert forall|j: int| 0 <= j < k + 1 implies named_in(
                        out@,
                        (#[trigger] paths@[j])@,
                    ) by {
                        if j == k {
                            assert(path_parts(out@[at as int]@) == path_parts(paths@[j]@));
                        } else {
                            assert(named_in(before, paths@[j]@));
                            let i = choose|i: int|
                                0 <= i < before.len() && path_parts((#[trigger] before[i])@)
                                    == path_parts(paths@[j]@);
                            let i1 = if i < at {
                                i
                            } else {
                                i + 1
                            };
                            assert(out@[i1] == before[i]);
                        }
                    }
                }
            },
        }
        k = k + 1;
    }
    proof {
        assert forall|i: int| 0 <= i < out@.len() implies taken_from(
            paths@,
            (#[trigger] out@[i])@,
        ) by {
            assert(first_of_its_name(paths@, from[i]));
        }
    }
    out
}

/// The paths of `found` that name sources, as they stand.
pub open spec fn sources_of(found: Seq<String>) -> Seq<String> {
    found.filter(|p: String| names_source(p@))
}

/// The sources among the files that were found: without repetitions, testbenches first and
/// then by path.
pub fn list_verilog_source_paths(found: Vec<String>) -> (r: Vec<String>)
    ensures
        ordered_sources(sources_of(found@), r@),
{
    let mut sources: Vec<String> = Vec::new();
    let mut i: usize = 0;
    proof {
        reveal(Seq::filter);
    }
    while i < found.len()
        invariant
            i <= found@.len(),
            sources@ == found@.take(i as int).filter(|p: String| names_source(p@)),
        decreases found@.len() - i,
    {
        proof {
            reveal(Seq::filter);
            assert(found@.take(i + 1).drop_last() == found@.take(i as int));
            assert(found@.take(i + 1).last() == found@[i as int]);
        }
        if is_verilog_file(found[i].as_str()) {
            sources.push(found[i].clone());
        }
        i = i + 1;
    }
    assert(found@.take(i as int) == found@);
    order_source_paths(sources)
}

} // verus!
