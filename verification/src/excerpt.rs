//! Excerpts of a source text by byte offsets.
use crate::number::u64_text;
use crate::parser::state::offset_to_line_col;
use crate::text::{char_width, chars_of, concat_str, push_char, string_from};
use vstd::prelude::*;

verus! {

/// Number of characters that start before a byte offset.
pub open spec fn chars_touched(s: Seq<char>, offset: nat) -> nat
    decreases s.len(),
{
    if s.len() == 0 || crate::text::byte_len(s.drop_last()) < offset {
        s.len()
    } else {
        chars_touched(s.drop_last(), offset)
    }
}

/// Characters before the first newline.
pub open spec fn line_len(s: Seq<char>) -> nat
    decreases s.len(),
{
    if s.len() == 0 || s[0] == '\n' {
        0
    } else {
        1 + line_len(s.drop_first())
    }
}

/// A line without the carriage return before its newline.
pub open spec fn without_cr(s: Seq<char>) -> Seq<char> {
    if s.len() > 0 && s.last() == '\r' {
        s.drop_last()
    } else {
        s
    }
}

/// Lines of a text, without their line ends.
pub open spec fn text_lines(s: Seq<char>) -> Seq<Seq<char>>
    decreases s.len(),
{
    if s.len() == 0 {
        Seq::empty()
    } else if line_len(s) >= s.len() {
        seq![s]
    } else {
        seq![without_cr(s.take(line_len(s) as int))] + text_lines(s.skip(line_len(s) as int + 1))
    }
}

/// `s` with spaces in front up to four characters.
pub open spec fn numbered(n: nat, line: Seq<char>) -> Seq<char> {
    let d = crate::number::decimal_digits(n);
    let pad: nat = if d.len() < 4 {
        (4 - d.len()) as nat
    } else {
        0
    };
    Seq::new(pad, |i: int| ' ') + d + " | "@ + line
}

/// Lines `lo` to `hi` with their numbers, one under the other.
pub open spec fn numbered_lines(lines: Seq<Seq<char>>, lo: int, hi: int) -> Seq<char>
    decreases hi - lo,
{
    if hi <= lo {
        Seq::empty()
    } else if hi == lo + 1 {
        numbered(hi as nat, lines[lo])
    } else {
        numbered_lines(lines, lo, hi - 1) + seq!['\n'] + numbered(hi as nat, lines[hi - 1])
    }
}

/// A part of a source text.
#[derive(Debug)]
pub struct Excerpt {
    pub text: String,
    pub line_start: usize,
    pub col_start: usize,
    pub context: Option<String>,
}

/// A part of a source text, as a value.
pub ghost struct ExcerptM {
    pub text: Seq<char>,
    pub line_start: usize,
    pub col_start: usize,
    pub context: Option<Seq<char>>,
}

impl Excerpt {
    pub open spec fn view(&self) -> ExcerptM {
        ExcerptM {
            text: self.text@,
            line_start: self.line_start,
            col_start: self.col_start,
            context: crate::sim_session::string_of(self.context),
        }
    }
}

/// The offsets lie in the text.
pub open spec fn in_text(s: Seq<char>, start: u32, end: u32) -> bool {
    start <= end && start <= crate::text::byte_len(s)
}

/// The lines from `first` to `last`, with `ctx` more on each side.
pub open spec fn context_of(s: Seq<char>, first: usize, last: usize, ctx: u32) -> Seq<char> {
    let lines = text_lines(s);
    let lo = if first <= ctx {
        0
    } else if first - ctx - 1 > lines.len() {
        lines.len() as int
    } else {
        first - ctx - 1
    };
    let hi = if last + ctx > lines.len() {
        lines.len() as int
    } else {
        last + ctx
    };
    numbered_lines(lines, lo, hi)
}

/// The characters that the bytes from `start` to `end` belong to, with the place where they
/// begin and the lines around them.
pub open spec fn excerpt_of(s: Seq<char>, start: u32, end: u32, ctx: u32) -> ExcerptM {
    let i = crate::text::chars_before(s, start as nat);
    let j = chars_touched(s, end as nat);
    let (line, col) = crate::parser::state::line_col(s, i);
    let last = crate::parser::state::line_col(
        s,
        if j > i {
            (j - 1) as nat
        } else {
            i
        },
    ).0;
    ExcerptM {
        text: s.subrange(i as int, j as int),
        line_start: line,
        col_start: col,
        context: if ctx > 0 {
            Some(context_of(s, line, last, ctx))
        } else {
            None
        },
    }
}

/// Message for offsets outside the text.
pub open spec fn out_of_bounds(s: Seq<char>, start: u32, end: u32) -> Seq<char> {
    "byte range "@ + crate::number::decimal_digits(start as nat) + ".."@
        + crate::number::decimal_digits(end as nat) + " out of bounds for file of length "@
        + crate::number::decimal_digits(crate::text::byte_len(s))
}

proof fn lemma_chars_touched(s: Seq<char>, k: int, offset: nat)
    requires
        0 <= k <= s.len(),
        k > 0 ==> crate::text::byte_len(s.take(k - 1)) < offset,
        k < s.len() ==> crate::text::byte_len(s.take(k)) >= offset,
    ensures
        chars_touched(s, offset) == k,
    decreases s.len(),
{
    if k == s.len() {
        if k > 0 {
            assert(s.take(k - 1) =~= s.drop_last());
        }
    } else {
        let d = s.drop_last();
        assert(d.take(k) =~= s.take(k));
        crate::text::lemma_byte_len_prefix(d, k);
        if k > 0 {
            assert(d.take(k - 1) =~= s.take(k - 1));
        }
        lemma_chars_touched(d, k, offset);
    }
}

fn split_lines(chars: &Vec<char>) -> (r: Vec<String>)
    ensures
        crate::parser::cst::names_view(r@) == text_lines(chars@),
{
    let mut out: Vec<String> = Vec::new();
    let mut pos: usize = 0;
    assert(chars@.skip(0) =~= chars@);
    assert(crate::parser::cst::names_view(out@) + text_lines(chars@) =~= text_lines(chars@));
    while pos < chars.len()
        invariant
            pos <= chars@.len(),
            crate::parser::cst::names_view(out@) + text_lines(chars@.skip(pos as int))
                == text_lines(chars@),
        decreases chars@.len() - pos,
    {
        let ghost had = crate::parser::cst::names_view(out@);
        let ghost rest = chars@.skip(pos as int);
        let mut n: usize = pos;
        while n < chars.len() && chars[n] != '\n'
            invariant
                pos <= n <= chars@.len(),
                line_len(rest) == (n - pos) + line_len(chars@.skip(n as int)),
                rest == chars@.skip(pos as int),
            decreases chars@.len() - n,
        {
            assert(chars@.skip(n as int).drop_first() =~= chars@.skip(n + 1));
            n = n + 1;
        }
        assert(line_len(rest) == n - pos);
        if n == chars.len() {
            let line = string_from(chars.as_slice(), pos, n);
            assert(line@ =~= rest);
            out.push(line);
            pos = n;
            assert(crate::parser::cst::names_view(out@) =~= had.push(rest));
            assert(chars@.skip(pos as int) =~= Seq::empty());
            assert(had.push(rest) + Seq::<Seq<char>>::empty() =~= had + seq![rest]);
        } else {
            let end: usize = if n > pos && chars[n - 1] == '\r' {
                n - 1
            } else {
                n
            };
            let line = string_from(chars.as_slice(), pos, end);
            let ghost text = without_cr(rest.take(n - pos));
            assert(line@ =~= text);
            out.push(line);
            assert(crate::parser::cst::names_view(out@) =~= had.push(text));
            assert(rest.skip(n - pos + 1) =~= chars@.skip(n + 1));
            assert(had.push(text) + text_lines(chars@.skip(n + 1)) =~= had + (seq![text]
                + text_lines(chars@.skip(n + 1))));
            pos = n + 1;
        }
    }
    assert(chars@.skip(pos as int) =~= Seq::empty());
    assert(crate::parser::cst::names_view(out@) =~= text_lines(chars@));
    out
}

fn number_line(n: u64, line: &str) -> (r: String)
    ensures
        r@ == numbered(n as nat, line@),
{
    let digits = u64_text(n);
    let width = chars_of(digits.as_str()).len();
    let mut out = String::new();
    let mut i: usize = width;
    assert(out@ =~= Seq::new(0, |i: int| ' '));
    while i < 4
        invariant
            width <= i,
            width < 4 ==> i <= 4,
            width >= 4 ==> i == width,
            out@ == Seq::new((i - width) as nat, |i: int| ' '),
        decreases 4 - i,
    {
        push_char(&mut out, ' ');
        assert(out@ =~= Seq::new((i + 1 - width) as nat, |i: int| ' '));
        i = i + 1;
    }
    let with_number = concat_str(out.as_str(), digits.as_str());
    let with_bar = concat_str(with_number.as_str(), " | ");
    concat_str(with_bar.as_str(), line)
}

fn join_numbered(lines: &Vec<String>, lo: usize, hi: usize) -> (r: String)
    requires
        lo <= hi <= lines@.len(),
    ensures
        r@ == numbered_lines(crate::parser::cst::names_view(lines@), lo as int, hi as int),
{
    let ghost all = crate::parser::cst::names_view(lines@);
    let mut out = String::new();
    let mut i: usize = lo;
    assert(out@ =~= numbered_lines(all, lo as int, lo as int));
    while i < hi
        invariant
            lo <= i <= hi <= lines@.len(),
            all == crate::parser::cst::names_view(lines@),
            out@ == numbered_lines(all, lo as int, i as int),
        decreases hi - i,
    {
        let ghost had = out@;
        let line = number_line((i + 1) as u64, lines[i].as_str());
        assert(line@ == numbered((i + 1) as nat, all[i as int]));
        if i > lo {
            push_char(&mut out, '\n');
            assert(out@ =~= had + seq!['\n']);
        }
        out = concat_str(out.as_str(), line.as_str());
        assert(out@ =~= numbered_lines(all, lo as int, i + 1));
        i = i + 1;
    }
    out
}

/// A later place is on no earlier line.
proof fn lemma_lines_grow(s: Seq<char>, i: nat, j: nat)
    requires
        i <= j,
    ensures
        crate::parser::state::newlines(crate::parser::state::head(s, i))
            <= crate::parser::state::newlines(crate::parser::state::head(s, j)),
    decreases j - i,
{
    if i < j {
        lemma_lines_grow(s, i, (j - 1) as nat);
        let before = crate::parser::state::head(s, (j - 1) as nat);
        let after = crate::parser::state::head(s, j);
        if j <= s.len() {
            assert(after.drop_last() =~= before);
        } else {
            assert(after =~= before);
        }
    }
}

fn context_lines_of(
    content: &str,
    chars: &Vec<char>,
    first: usize,
    last: usize,
    ctx: u32,
) -> (r: String)
    requires
        chars@ == content@,
        first <= last,
    ensures
        r@ == context_of(content@, first, last, ctx),
{
    let lines = split_lines(chars);
    let c = ctx as usize;
    let lo: usize = if first <= c {
        0
    } else if first - c - 1 > lines.len() {
        lines.len()
    } else {
        first - c - 1
    };
    let hi: usize = if lines.len() <= c || lines.len() - c < last {
        lines.len()
    } else {
        last + c
    };
    assert(crate::parser::cst::names_view(lines@).len() == lines@.len());
    join_numbered(&lines, lo, hi)
}

/// The part of a source text between two byte offsets, widened to whole characters.
pub fn source_excerpt(content: &str, start: u32, end: u32, context_lines: Option<u32>) -> (r:
    Result<Excerpt, String>)
    ensures
        match r {
            Ok(e) => in_text(content@, start, end) && e@ == excerpt_of(
                content@,
                start,
                end,
                match context_lines {
                    Some(n) => n,
                    None => 0,
                },
            ),
            Err(m) => !in_text(content@, start, end) && m@ == out_of_bounds(content@, start, end),
        },
{
    let total = content.as_bytes().len();
    proof {
        crate::text::lemma_byte_len(content@);
    }
    if start > end || start as usize > total {
        let mut m = concat_str("byte range ", u64_text(start as u64).as_str());
        m = concat_str(m.as_str(), "..");
        m = concat_str(m.as_str(), u64_text(end as u64).as_str());
        m = concat_str(m.as_str(), " out of bounds for file of length ");
        m = concat_str(m.as_str(), u64_text(total as u64).as_str());
        return Err(m);
    }
    let chars = chars_of(content);
    let mut i: usize = 0;
    let mut at: usize = 0;
    assert(chars@.take(0) =~= Seq::empty());
    while i < chars.len() && char_width(chars[i]) <= start as usize - at
        invariant
            i <= chars@.len(),
            at == crate::text::byte_len(chars@.take(i as int)),
            at <= start,
            at <= total,
            total == crate::text::byte_len(chars@),
        decreases chars@.len() - i,
    {
        proof {
            crate::text::lemma_byte_len_prefix(chars@, i as int);
        }
        at = at + char_width(chars[i]);
        i = i + 1;
    }
    proof {
        crate::text::lemma_byte_len_prefix(chars@, i as int);
        crate::text::lemma_chars_before(chars@, i as int, start as nat);
        if i > 0 {
            crate::text::lemma_byte_len_prefix(chars@, i - 1);
        }
    }
    let mut j: usize = i;
    while j < chars.len() && at < end as usize
        invariant
            i <= j <= chars@.len(),
            at == crate::text::byte_len(chars@.take(j as int)),
            at <= total,
            total == crate::text::byte_len(chars@),
            start <= end,
            j == i ==> at <= start,
            j > 0 ==> crate::text::byte_len(chars@.take(j - 1)) < end,
        decreases chars@.len() - j,
    {
        proof {
            crate::text::lemma_byte_len_prefix(chars@, j as int);
        }
        at = at + char_width(chars[j]);
        j = j + 1;
    }
    proof {
        lemma_chars_touched(chars@, j as int, end as nat);
    }
    let (line, col) = offset_to_line_col(content, i);
    let ctx: u32 = match context_lines {
        Some(n) => n,
        None => 0,
    };
    let context = if ctx > 0 {
        let at_end: usize = if j > i {
            j - 1
        } else {
            i
        };
        let (last, _col) = offset_to_line_col(content, at_end);
        proof {
            lemma_lines_grow(content@, i as nat, at_end as nat);
        }
        Some(context_lines_of(content, &chars, line, last, ctx))
    } else {
        None
    };
    Ok(
        Excerpt {
            text: string_from(chars.as_slice(), i, j),
            line_start: line,
            col_start: col,
            context,
        },
    )
}

} // verus!
