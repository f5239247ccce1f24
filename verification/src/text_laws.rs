//! Laws: lines, columns and pieces of texts, and lookups by name.
use crate::ir::IrModule;
use crate::SourceFile;
use vstd::prelude::*;

verus! {

/// The text has no newline in it.
pub open spec fn one_line(s: Seq<char>) -> bool {
    forall|i: int| 0 <= i < s.len() ==> #[trigger] s[i] != '\n'
}

proof fn lemma_newlines(a: Seq<char>, l: Seq<char>)
    requires
        one_line(l),
    ensures
        crate::parser::state::newlines(a + l) == crate::parser::state::newlines(a),
        crate::parser::state::tail_len(a + l) == crate::parser::state::tail_len(a) + l.len(),
    decreases l.len(),
{
    if l.len() == 0 {
        assert(a + l =~= a);
    } else {
        let front = l.drop_last();
        assert(l[l.len() - 1] != '\n');
        assert forall|i: int| 0 <= i < front.len() implies #[trigger] front[i] != '\n' by {
            assert(l[i] != '\n');
        }
        lemma_newlines(a, front);
        assert((a + l).drop_last() =~= a + front);
    }
}

/// Places in a text: on the first line a place has column one behind as many characters as
/// stand before it, and each newline before it begins another line.
pub proof fn law_places(a: Seq<char>, l: Seq<char>, rest: Seq<char>)
    requires
        one_line(l),
        a.len() + l.len() + 2 <= usize::MAX,
    ensures
        crate::parser::state::line_col(l + rest, l.len()) == (1usize, (l.len() + 1) as usize),
        ({
            let p = a + seq!['\n'] + l;
            let (line, column) = crate::parser::state::line_col(p + rest, p.len());
            let (before, _) = crate::parser::state::line_col(a + rest, a.len());
            line == before + 1 && column == l.len() + 1
        }),
{
    let none = Seq::<char>::empty();
    lemma_newlines(none, l);
    assert(none + l =~= l);
    lemma_head(l, rest);
    lemma_head(a, rest);
    let broken = a + seq!['\n'];
    assert(broken.drop_last() =~= a);
    assert(broken.last() == '\n');
    lemma_newlines(broken, l);
    lemma_head(broken + l, rest);
    lemma_count(a);
}

proof fn lemma_head(p: Seq<char>, rest: Seq<char>)
    ensures
        crate::parser::state::head(p + rest, p.len()) == p,
{
    if rest.len() > 0 {
        assert((p + rest).take(p.len() as int) =~= p);
    } else {
        assert(p + rest =~= p);
    }
}

proof fn lemma_count(s: Seq<char>)
    ensures
        crate::parser::state::newlines(s) <= s.len(),
    decreases s.len(),
{
    if s.len() > 0 {
        lemma_count(s.drop_last());
    }
}

/// Lines of a file in bytes: a newline byte begins another line behind it, and no other byte
/// does.
pub proof fn law_lines_of_bytes(a: Seq<u8>, b: u8)
    ensures
        crate::source_map::newline_count(Seq::empty()) == 0,
        crate::source_map::last_line_start(Seq::empty()) == 0,
        b == 0x0a ==> crate::source_map::newline_count(a.push(b))
            == crate::source_map::newline_count(a) + 1,
        b == 0x0a ==> crate::source_map::last_line_start(a.push(b)) == a.len() + 1,
        b != 0x0a ==> crate::source_map::newline_count(a.push(b))
            == crate::source_map::newline_count(a),
        b != 0x0a ==> crate::source_map::last_line_start(a.push(b))
            == crate::source_map::last_line_start(a),
{
    assert(a.push(b).drop_last() =~= a);
}

proof fn lemma_touched(p: Seq<char>, rest: Seq<char>)
    ensures
        crate::excerpt::chars_touched(p + rest, crate::text::byte_len(p)) == p.len(),
    decreases rest.len(),
{
    if rest.len() == 0 {
        assert(p + rest =~= p);
        if p.len() > 0 {
            assert(crate::text::byte_len(p) == crate::text::byte_len(p.drop_last())
                + crate::text::utf8_width(p.last()));
        }
    } else {
        assert((p + rest).drop_last() =~= p + rest.drop_last());
        crate::text::lemma_byte_len_concat(p, rest.drop_last());
        lemma_touched(p, rest.drop_last());
    }
}

/// An excerpt between two bytes is the text between them, with the line and column where it
/// begins.
pub proof fn law_excerpt(a: Seq<char>, t: Seq<char>, b: Seq<char>, start: u32, end: u32, ctx: u32)
    requires
        start == vstd::utf8::encode_utf8(a).len(),
        end == vstd::utf8::encode_utf8(a + t).len(),
    ensures
        ({
            let e = crate::excerpt::excerpt_of(a + t + b, start, end, ctx);
            &&& e.text == t
            &&& (e.line_start, e.col_start) == crate::parser::state::line_col(a + t + b, a.len())
            &&& e.context is None <==> ctx == 0
            &&& ctx > 0 && t.len() > 0 ==> e.context == Some(
                crate::excerpt::context_of(
                    a + t + b,
                    e.line_start,
                    crate::parser::state::line_col(a + t + b, (a.len() + t.len() - 1) as nat).0,
                    ctx,
                ),
            )
            &&& crate::excerpt::in_text(a + t + b, start, end)
        }),
{
    let s = a + t + b;
    crate::lexer_laws::law_byte_length(a);
    crate::lexer_laws::law_byte_length(a + t);
    assert(s =~= a + (t + b));
    crate::text::lemma_byte_len_concat(a, t + b);
    crate::text::lemma_byte_len_concat(a, t);
    lemma_before(a, t + b);
    lemma_touched(a + t, b);
    assert(s.subrange(a.len() as int, a.len() as int + t.len()) =~= t);
}

proof fn lemma_before(p: Seq<char>, rest: Seq<char>)
    ensures
        crate::text::chars_before(p + rest, crate::text::byte_len(p)) == p.len(),
    decreases p.len() + rest.len(),
{
    if rest.len() == 0 {
        assert(p + rest =~= p);
    } else {
        assert((p + rest).drop_last() =~= p + rest.drop_last());
        crate::text::lemma_byte_len_concat(p, rest);
        lemma_before(p, rest.drop_last());
    }
}

/// A range that begins behind the text, or ends before it begins, is out of it.
pub proof fn law_out_of_text(s: Seq<char>, start: u32, end: u32)
    ensures
        start > end ==> !crate::excerpt::in_text(s, start, end),
        start > vstd::utf8::encode_utf8(s).len() ==> !crate::excerpt::in_text(s, start, end),
{
    crate::text::lemma_byte_len(s);
}

/// The lines of a text end at its newlines, which do not belong to them, nor does a carriage
/// return in front of one; what is left behind the last one is a line too.
pub proof fn law_lines(l: Seq<char>, rest: Seq<char>)
    requires
        one_line(l),
    ensures
        l.len() > 0 ==> crate::excerpt::text_lines(l) == seq![l],
        (l.len() == 0 || l.last() != '\r') ==> crate::excerpt::text_lines(l + seq!['\n'] + rest)
            == seq![l] + crate::excerpt::text_lines(rest),
        crate::excerpt::text_lines(l + seq!['\r', '\n'] + rest) == seq![l]
            + crate::excerpt::text_lines(rest),
{
    lemma_line_len(l, Seq::empty());
    assert(l + Seq::<char>::empty() =~= l);
    let s = l + seq!['\n'] + rest;
    lemma_line_len(l, seq!['\n'] + rest);
    assert(s =~= l + (seq!['\n'] + rest));
    assert(s.take(l.len() as int) =~= l);
    assert(s.skip(l.len() as int + 1) =~= rest);
    let m = l.push('\r');
    let t = l + seq!['\r', '\n'] + rest;
    assert forall|i: int| 0 <= i < m.len() implies #[trigger] m[i] != '\n' by {
        if i < l.len() {
            assert(m[i] == l[i]);
        }
    }
    lemma_line_len(m, seq!['\n'] + rest);
    assert(t =~= m + (seq!['\n'] + rest));
    assert(t.take(m.len() as int) =~= m);
    assert(t.skip(m.len() as int + 1) =~= rest);
    assert(m.drop_last() =~= l);
}

proof fn lemma_line_len(l: Seq<char>, rest: Seq<char>)
    requires
        one_line(l),
        rest.len() > 0 ==> rest[0] == '\n',
    ensures
        crate::excerpt::line_len(l + rest) == l.len(),
    decreases l.len(),
{
    if l.len() == 0 {
        assert(l + rest =~= rest);
    } else {
        assert((l + rest)[0] == l[0]);
        assert((l + rest).drop_first() =~= l.drop_first() + rest);
        assert forall|i: int| 0 <= i < l.drop_first().len() implies #[trigger] l.drop_first()[i]
            != '\n' by {
            assert(l[i + 1] != '\n');
        }
        lemma_line_len(l.drop_first(), rest);
    }
}

/// The context of an excerpt is every line from so many before its first to so many behind
/// its last, as far as the text goes.
pub proof fn law_context(s: Seq<char>, first: usize, last: usize, ctx: u32, lo: int, hi: int)
    requires
        1 <= first <= last <= crate::excerpt::text_lines(s).len(),
        lo == if first > ctx {
            first - ctx
        } else {
            1
        },
        hi == if last + ctx <= crate::excerpt::text_lines(s).len() {
            last + ctx
        } else {
            crate::excerpt::text_lines(s).len() as int
        },
    ensures
        lo < hi ==> crate::excerpt::context_of(s, first, last, ctx) == crate::excerpt::numbered_lines(
            crate::excerpt::text_lines(s),
            lo - 1,
            hi - 1,
        ) + seq!['\n'] + shown(hi as nat, crate::excerpt::text_lines(s)[hi - 1]),
        lo == hi ==> crate::excerpt::context_of(s, first, last, ctx) == shown(
            lo as nat,
            crate::excerpt::text_lines(s)[lo - 1],
        ),
{
    lemma_shown(lo as nat, crate::excerpt::text_lines(s)[lo - 1]);
    lemma_shown(hi as nat, crate::excerpt::text_lines(s)[hi - 1]);
}

/// A line behind its number, which has at least four places.
pub open spec fn shown(n: nat, line: Seq<char>) -> Seq<char> {
    let d = crate::number::decimal_digits(n);
    let spaces = if d.len() == 1 {
        seq![' ', ' ', ' ']
    } else if d.len() == 2 {
        seq![' ', ' ']
    } else if d.len() == 3 {
        seq![' ']
    } else {
        Seq::empty()
    };
    spaces + d + seq![' ', '|', ' '] + line
}

proof fn lemma_shown(n: nat, line: Seq<char>)
    ensures
        crate::excerpt::numbered(n, line) == shown(n, line),
{
    reveal_strlit(" | ");
    crate::number::law_decimal_digits_value(n);
    assert(crate::excerpt::numbered(n, line) =~= shown(n, line));
}

/// The file of a module is that of the first module of its name.
pub proof fn law_path_of_module(ms: Seq<IrModule>, name: Seq<char>, k: int)
    ensures
        0 <= k < ms.len() && ms[k].name@ == name && (forall|j: int|
            0 <= j < k ==> (#[trigger] ms[j]).name@ != name) ==> crate::simulate::path_of_module(
            ms,
            name,
        ) == Some(ms[k].path@),
        (forall|j: int| 0 <= j < ms.len() ==> (#[trigger] ms[j]).name@ != name)
            ==> crate::simulate::path_of_module(ms, name) is None,
    decreases ms.len(),
{
    if ms.len() > 0 {
        let front = ms.drop_last();
        assert forall|i: int| 0 <= i < front.len() implies front[i] == ms[i] by {}
        law_path_of_module(front, name, k);
        assert(ms.last() == ms[ms.len() - 1]);
    }
}

/// The text of a path is that of the last source file of that path.
pub proof fn law_source_text(sources: Seq<SourceFile>, path: Seq<char>, k: int)
    ensures
        0 <= k < sources.len() && sources[k].path@ == path && (forall|j: int|
            k < j < sources.len() ==> (#[trigger] sources[j]).path@ != path)
            ==> crate::sim_session::source_text(sources, path) == Some(
            vstd::utf8::encode_utf8(sources[k].content@),
        ),
        (forall|j: int| 0 <= j < sources.len() ==> (#[trigger] sources[j]).path@ != path)
            ==> crate::sim_session::source_text(sources, path) is None,
    decreases sources.len(),
{
    if sources.len() > 0 {
        let front = sources.drop_last();
        assert forall|i: int| 0 <= i < front.len() implies front[i] == sources[i] by {}
        law_source_text(front, path, k);
        assert(sources.last() == sources[sources.len() - 1]);
    }
}

/// A span of a known file is shown with the file's path and the lines and columns of its two
/// ends; a span of no file is not shown.
pub proof fn law_resolved_span(
    files: Seq<crate::source_map::FileModel>,
    span: crate::source_map::Span,
)
    ensures
        crate::source_map::resolved(files, span) is Some <==> span.file_id < files.len()
            && span.file_id != crate::source_map::SYNTHETIC_FILE,
        crate::source_map::resolved(files, span) matches Some(info) ==> {
            let starts = files[span.file_id as int].line_starts;
            &&& info.file_id == span.file_id
            &&& info.path == files[span.file_id as int].path
            &&& info.start == span.start && info.end == span.end
            &&& info.from == crate::source_map::line_col_in(starts, span.start)
            &&& info.to == crate::source_map::line_col_in(starts, span.end)
        },
{
}

/// Of a list of spans, those of known files are shown, in order.
pub proof fn law_shown_spans(
    files: Seq<crate::source_map::FileModel>,
    spans: Seq<crate::source_map::Span>,
    x: crate::source_map::Span,
)
    ensures
        crate::sim_session::known_infos(files, Seq::empty()).len() == 0,
        crate::source_map::resolved(files, x) is Some ==> crate::sim_session::known_infos(
            files,
            spans.push(x),
        ) == crate::sim_session::known_infos(files, spans).push(
            crate::source_map::resolved(files, x).unwrap(),
        ),
        crate::source_map::resolved(files, x) is None ==> crate::sim_session::known_infos(
            files,
            spans.push(x),
        ) == crate::sim_session::known_infos(files, spans),
{
    assert(spans.push(x).drop_last() =~= spans);
}

} // verus!
