//! Source-location tracking for the time-synced debugger.
//!
//! [`Span`] records a half-open byte range in one source file identified by a [`FileId`].
//! [`SourceMap`] owns the file paths and precomputes line-start offsets so that a byte
//! range can be converted into `(line, col)` positions cheaply.
use crate::text::str_eq;
use vstd::prelude::*;

verus! {

/// Opaque handle to a source file registered in a [`SourceMap`].
pub type FileId = u16;

/// Sentinel [`FileId`] of spans that were synthesized internally and belong to no file.
pub const SYNTHETIC_FILE: u16 = 0xffff;

/// A half-open byte range `[start, end)` inside the file identified by `file_id`.
#[derive(Debug, Clone, Copy, PartialEq, Eq, Hash, Structural)]
pub struct Span {
    pub file_id: FileId,
    pub start: u32,
    pub end: u32,
}

impl Span {
    pub fn new(file_id: FileId, start: u32, end: u32) -> (r: Self)
        ensures
            r == (Span { file_id, start, end }),
    {
        Span { file_id, start, end }
    }

    /// The span used when no source location is known: an empty range in the
    /// synthetic file.
    pub fn dummy() -> (r: Self)
        ensures
            r == Span::spec_dummy(),
    {
        Span { file_id: SYNTHETIC_FILE, start: 0, end: 0 }
    }

    pub open spec fn spec_dummy() -> Span {
        Span { file_id: SYNTHETIC_FILE, start: 0, end: 0 }
    }

    pub fn is_dummy(&self) -> (r: bool)
        ensures
            r == (self.file_id == SYNTHETIC_FILE),
    {
        self.file_id == SYNTHETIC_FILE
    }
}

/// 1-indexed line/column pair resolved against a [`SourceMap`].
#[derive(Debug, Clone, Copy, PartialEq, Eq, Structural)]
pub struct LineCol {
    pub line: u32,
    pub col: u32,
}

/// Detailed span info for frontend consumers.
#[derive(Debug, Clone)]
pub struct SpanInfo {
    pub file_id: FileId,
    pub path: String,
    pub start: u32,
    pub end: u32,
    pub line_start: u32,
    pub col_start: u32,
    pub line_end: u32,
    pub col_end: u32,
}

/// Line-start offsets of a text: 0, and one past every newline byte.
pub open spec fn line_starts_of(bytes: Seq<u8>) -> Seq<u32>
    decreases bytes.len(),
{
    if bytes.len() == 0 {
        seq![0u32]
    } else {
        let rest = line_starts_of(bytes.drop_last());
        if bytes.last() == 10u8 {
            rest.push(bytes.len() as u32)
        } else {
            rest
        }
    }
}

/// Number of newline bytes in a text.
pub open spec fn newline_count(bytes: Seq<u8>) -> nat
    decreases bytes.len(),
{
    if bytes.len() == 0 {
        0
    } else {
        newline_count(bytes.drop_last()) + if bytes.last() == 10u8 {
            1nat
        } else {
            0nat
        }
    }
}

/// Offset one past the last newline of a text, 0 when it has none.
pub open spec fn last_line_start(bytes: Seq<u8>) -> nat
    decreases bytes.len(),
{
    if bytes.len() == 0 {
        0
    } else if bytes.last() == 10u8 {
        bytes.len()
    } else {
        last_line_start(bytes.drop_last())
    }
}

/// Strictly increasing, starting at 0.
pub open spec fn valid_line_starts(starts: Seq<u32>) -> bool {
    &&& starts.len() > 0
    &&& starts[0] == 0
    &&& forall|i: int, j: int| 0 <= i < j < starts.len() ==> starts[i] < starts[j]
}

/// How many of the line starts are at or before `offset`.
pub open spec fn line_number(starts: Seq<u32>, offset: u32) -> nat
    decreases starts.len(),
{
    if starts.len() == 0 {
        0
    } else if starts.last() <= offset {
        starts.len()
    } else {
        line_number(starts.drop_last(), offset)
    }
}

/// The byte offset at which the line that holds `offset` begins.
pub open spec fn line_begin(starts: Seq<u32>, offset: u32) -> int {
    starts[line_number(starts, offset) - 1] as int
}

pub proof fn lemma_line_number(starts: Seq<u32>, offset: u32)
    requires
        valid_line_starts(starts),
    ensures
        1 <= line_number(starts, offset) <= starts.len(),
        starts[line_number(starts, offset) - 1] <= offset,
        line_number(starts, offset) < starts.len() ==> offset < starts[line_number(
            starts,
            offset,
        ) as int],
    decreases starts.len(),
{
    if starts.last() > offset {
        let rest = starts.drop_last();
        assert(rest[0] == starts[0]);
        lemma_line_number(rest, offset);
        assert(line_number(rest, offset) < rest.len() ==> rest[line_number(rest, offset) as int]
            == starts[line_number(rest, offset) as int]);
    }
}

pub proof fn lemma_line_starts(bytes: Seq<u8>)
    requires
        bytes.len() <= u32::MAX,
    ensures
        valid_line_starts(line_starts_of(bytes)),
        line_starts_of(bytes).last() <= bytes.len(),
        line_starts_of(bytes).len() <= bytes.len() + 1,
        line_starts_of(bytes).len() == newline_count(bytes) + 1,
        line_starts_of(bytes).last() == last_line_start(bytes),
    decreases bytes.len(),
{
    if bytes.len() > 0 {
        lemma_line_starts(bytes.drop_last());
    }
}

/// Registry of source files and precomputed line offsets.
#[derive(Debug)]
pub struct SourceMap {
    paths: Vec<String>,
    line_starts: Vec<Vec<u32>>,
}

/// What a [`SourceMap`] knows of one file.
pub ghost struct FileModel {
    pub path: Seq<char>,
    pub line_starts: Seq<u32>,
}

impl View for SourceMap {
    type V = Seq<FileModel>;

    closed spec fn view(&self) -> Seq<FileModel> {
        Seq::new(
            self.paths@.len(),
            |i: int| FileModel { path: self.paths@[i]@, line_starts: self.line_starts@[i]@ },
        )
    }
}

/// Position of the file registered under `path`.
pub open spec fn find_path(files: Seq<FileModel>, path: Seq<char>) -> Option<int>
    decreases files.len(),
{
    if files.len() == 0 {
        None
    } else {
        match find_path(files.drop_last(), path) {
            Some(i) => Some(i),
            None => if files.last().path == path {
                Some(files.len() - 1)
            } else {
                None
            },
        }
    }
}

pub proof fn lemma_find_path(files: Seq<FileModel>, path: Seq<char>)
    ensures
        find_path(files, path) matches Some(i) ==> 0 <= i < files.len() && files[i].path == path
            && forall|j: int| 0 <= j < i ==> files[j].path != path,
        find_path(files, path) is None ==> forall|j: int|
            0 <= j < files.len() ==> files[j].path != path,
    decreases files.len(),
{
    if files.len() > 0 {
        let rest = files.drop_last();
        lemma_find_path(rest, path);
        assert forall|j: int| 0 <= j < rest.len() implies rest[j] == files[j] by {}
        if find_path(rest, path) is None {
            assert forall|j: int| 0 <= j < files.len() - 1 implies files[j].path != path by {
                assert(rest[j].path != path);
            }
        }
    }
}

/// Line and column of `offset` in a file with the given line starts.
pub open spec fn line_col_in(starts: Seq<u32>, offset: u32) -> LineCol {
    LineCol {
        line: line_number(starts, offset) as u32,
        col: if offset - line_begin(starts, offset) < u32::MAX {
            (offset - line_begin(starts, offset) + 1) as u32
        } else {
            u32::MAX
        },
    }
}

/// Line and column of `offset` in file `id`; (1, 1) where the file is not known.
pub open spec fn line_col_of(files: Seq<FileModel>, id: FileId, offset: u32) -> LineCol {
    if id == SYNTHETIC_FILE || id >= files.len() {
        LineCol { line: 1, col: 1 }
    } else {
        line_col_in(files[id as int].line_starts, offset)
    }
}

/// Model of [`SpanInfo`].
pub ghost struct InfoM {
    pub file_id: FileId,
    pub path: Seq<char>,
    pub start: u32,
    pub end: u32,
    pub from: LineCol,
    pub to: LineCol,
}

impl SpanInfo {
    pub open spec fn view(&self) -> InfoM {
        InfoM {
            file_id: self.file_id,
            path: self.path@,
            start: self.start,
            end: self.end,
            from: LineCol { line: self.line_start, col: self.col_start },
            to: LineCol { line: self.line_end, col: self.col_end },
        }
    }
}

/// What a span stands for: nothing where its file is not registered.
pub open spec fn resolved(files: Seq<FileModel>, span: Span) -> Option<InfoM> {
    if span.file_id >= files.len() || span.file_id == SYNTHETIC_FILE {
        None
    } else {
        Some(
            InfoM {
                file_id: span.file_id,
                path: files[span.file_id as int].path,
                start: span.start,
                end: span.end,
                from: line_col_of(files, span.file_id, span.start),
                to: line_col_of(files, span.file_id, span.end),
            },
        )
    }
}

/// The files after `path` was registered, and its id. A path that is registered already
/// keeps its id and its line starts.
pub open spec fn interned(files: Seq<FileModel>, path: Seq<char>, content: Seq<char>) -> (
    Seq<FileModel>,
    int,
) {
    match find_path(files, path) {
        Some(i) => (files, i),
        None => (
            files.push(
                FileModel {
                    path,
                    line_starts: line_starts_of(vstd::utf8::encode_utf8(content)),
                },
            ),
            files.len() as int,
        ),
    }
}

impl SourceMap {
    /// Every file has valid line starts, no path is registered twice, and every file
    /// has an id other than the synthetic one.
    #[verifier::type_invariant]
    spec fn wf(&self) -> bool {
        &&& self.paths@.len() == self.line_starts@.len()
        &&& self@.len() <= SYNTHETIC_FILE
        &&& forall|i: int|
            0 <= i < self@.len() ==> #[trigger] valid_line_starts(self@[i].line_starts)
                && self@[i].line_starts.len() <= u32::MAX
        &&& forall|i: int, j: int|
            0 <= i < j < self@.len() ==> #[trigger] self@[i].path != #[trigger] self@[j].path
    }

    pub fn new() -> (r: Self)
        ensures
            r@ == Seq::<FileModel>::empty(),
    {
        SourceMap { paths: Vec::new(), line_starts: Vec::new() }
    }

    /// Registers `path` and precomputes its line-start offsets. A path that is already
    /// registered keeps its id, and its content is not scanned again.
    pub fn intern(&mut self, path: &str, content: &str) -> (id: FileId)
        requires
            find_path(old(self)@, path@) is Some || (old(self)@.len() < SYNTHETIC_FILE
                && vstd::utf8::encode_utf8(content@).len() < u32::MAX),
        ensures
            (final(self)@, id as int) == interned(old(self)@, path@, content@),
    {
        proof {
            use_type_invariant(&*self);
            lemma_find_path(self@, path@);
        }
        if let Some(id) = self.file_id(path) {
            return id;
        }
        let id: FileId = self.paths.len() as u16;
        let mut starts: Vec<u32> = Vec::new();
        starts.push(0);
        let bytes = content.as_bytes();
        let mut i: usize = 0;
        assert(starts@ =~= line_starts_of(bytes@.take(0)));
        while i < bytes.len()
            invariant
                i <= bytes@.len() < u32::MAX,
                starts@ == line_starts_of(bytes@.take(i as int)),
            decreases bytes@.len() - i,
        {
            assert(bytes@.take(i + 1).drop_last() == bytes@.take(i as int));
            if bytes[i] == 10 {
                starts.push((i as u32) + 1);
            }
            i = i + 1;
        }
        assert(bytes@.take(i as int) == bytes@);
        proof {
            lemma_line_starts(bytes@);
        }
        let ghost before = self@;
        let mut whole = SourceMap::new();
        std::mem::swap(self, &mut whole);
        proof {
            use_type_invariant(&whole);
        }
        let SourceMap { mut paths, mut line_starts } = whole;
        paths.push(path.to_owned());
        line_starts.push(starts);
        let ghost after = Seq::new(
            paths@.len(),
            |i: int| FileModel { path: paths@[i]@, line_starts: line_starts@[i]@ },
        );
        proof {
            assert(after =~= before.push(
                FileModel {
                    path: path@,
                    line_starts: line_starts_of(vstd::utf8::encode_utf8(content@)),
                },
            ));
            assert forall|i: int| 0 <= i < after.len() implies #[trigger] valid_line_starts(
                after[i].line_starts,
            ) && after[i].line_starts.len() <= u32::MAX by {
                if i < before.len() {
                    assert(valid_line_starts(before[i].line_starts));
                }
            }
        }
        *self = SourceMap { paths, line_starts };
        assert(self@ =~= after);
        id
    }

    /// The path of a registered file; looking for the path gives its id back.
    pub fn path(&self, id: FileId) -> (r: Option<&str>)
        ensures
            match r {
                Some(p) => id < self@.len() && p@ == self@[id as int].path && find_path(
                    self@,
                    p@,
                ) == Some(id as int),
                None => id >= self@.len(),
            },
    {
        proof {
            use_type_invariant(self);
            if id < self@.len() {
                lemma_find_path(self@, self@[id as int].path);
            }
        }
        if id == SYNTHETIC_FILE {
            return None;
        }
        if (id as usize) < self.paths.len() {
            Some(self.paths[id as usize].as_str())
        } else {
            None
        }
    }

    /// The id of a registered path; the file of that id has the path.
    pub fn file_id(&self, path: &str) -> (r: Option<FileId>)
        ensures
            match r {
                Some(id) => find_path(self@, path@) == Some(id as int) && id < self@.len()
                    && self@[id as int].path == path@,
                None => find_path(self@, path@) is None && forall|i: int|
                    0 <= i < self@.len() ==> (#[trigger] self@[i]).path != path@,
            },
    {
        proof {
            use_type_invariant(self);
        }
        let mut i: usize = 0;
        while i < self.paths.len()
            invariant
                self.wf(),
                i <= self.paths@.len() == self@.len(),
                forall|j: int| 0 <= j < i ==> (#[trigger] self@[j]).path != path@,
            decreases self.paths@.len() - i,
        {
            if str_eq(self.paths[i].as_str(), path) {
                assert(self@[i as int].path == path@);
                proof {
                    lemma_find_path(self@, path@);
                }
                return Some(i as u16);
            }
            i = i + 1;
        }
        proof {
            lemma_find_path(self@, path@);
        }
        None
    }

    /// The registered files, in the order of their ids.
    pub fn files(&self) -> (r: Vec<(FileId, String)>)
        ensures
            r@.len() == self@.len(),
            forall|i: int|
                0 <= i < r@.len() ==> (#[trigger] r@[i]).0 == i && r@[i].1@ == self@[i].path,
    {
        proof {
            use_type_invariant(self);
        }
        let mut out: Vec<(FileId, String)> = Vec::new();
        let mut i: usize = 0;
        while i < self.paths.len()
            invariant
                self.wf(),
                i <= self.paths@.len() == self@.len(),
                out@.len() == i,
                forall|j: int|
                    0 <= j < i ==> (#[trigger] out@[j]).0 == j && out@[j].1@ == self@[j].path,
            decreases self.paths@.len() - i,
        {
            out.push((i as u16, self.paths[i].clone()));
            i = i + 1;
        }
        out
    }

    /// Converts a byte offset into a 1-indexed `(line, col)` using binary search.
    pub fn offset_to_line_col(&self, file_id: FileId, offset: u32) -> (r: LineCol)
        ensures
            r == line_col_of(self@, file_id, offset),
    {
        proof {
            use_type_invariant(self);
        }
        if file_id == SYNTHETIC_FILE {
            return LineCol { line: 1, col: 1 };
        }
        if (file_id as usize) >= self.line_starts.len() {
            return LineCol { line: 1, col: 1 };
        }
        let starts = &self.line_starts[file_id as usize];
        assert(starts@ == self@[file_id as int].line_starts);
        assert(valid_line_starts(self@[file_id as int].line_starts));
        let mut lo: usize = 0;
        let mut hi: usize = starts.len();
        while lo < hi
            invariant
                lo <= hi <= starts@.len(),
                valid_line_starts(starts@),
                forall|k: int| 0 <= k < lo ==> starts@[k] <= offset,
                forall|k: int| hi <= k < starts@.len() ==> offset < starts@[k],
            decreases hi - lo,
        {
            let mid: usize = lo + (hi - lo) / 2;
            if starts[mid] <= offset {
                lo = mid + 1;
            } else {
                hi = mid;
            }
        }
        proof {
            lemma_line_number(starts@, offset);
            let n = line_number(starts@, offset);
            assert(starts@[0] <= offset);
            if n < lo {
                assert(starts@[n as int] <= offset);
            }
            if lo < n {
                assert(offset < starts@[lo as int]);
                assert(starts@[lo as int] <= starts@[n - 1]);
            }
        }
        let line: u32 = lo as u32;
        let col: u32 = (offset - starts[lo - 1]).saturating_add(1);
        LineCol { line, col }
    }

    /// Resolves a span to line/column pairs; `None` for the synthetic file and for
    /// files that are not registered.
    pub fn resolve(&self, span: Span) -> (r: Option<SpanInfo>)
        ensures
            match r {
                Some(info) => resolved(self@, span) == Some(info@),
                None => resolved(self@, span) is None,
            },
    {
        proof {
            use_type_invariant(self);
        }
        if span.is_dummy() {
            return None;
        }
        let path = match self.path(span.file_id) {
            Some(p) => p.to_owned(),
            None => {
                return None;
            },
        };
        let start = self.offset_to_line_col(span.file_id, span.start);
        let end = self.offset_to_line_col(span.file_id, span.end);
        Some(
            SpanInfo {
                file_id: span.file_id,
                path,
                start: span.start,
                end: span.end,
                line_start: start.line,
                col_start: start.col,
                line_end: end.line,
                col_end: end.col,
            },
        )
    }
}

impl Clone for SourceMap {
    fn clone(&self) -> (r: Self)
        ensures
            r@ == self@,
    {
        proof {
            use_type_invariant(self);
        }
        let mut paths: Vec<String> = Vec::new();
        let mut line_starts: Vec<Vec<u32>> = Vec::new();
        let mut i: usize = 0;
        while i < self.paths.len()
            invariant
                self.wf(),
                i <= self.paths@.len(),
                paths@.len() == i,
                line_starts@.len() == i,
                forall|j: int| 0 <= j < i ==> (#[trigger] paths@[j])@ == self.paths@[j]@,
                forall|j: int| 0 <= j < i ==> (#[trigger] line_starts@[j])@ == self.line_starts@[j]@,
            decreases self.paths@.len() - i,
        {
            paths.push(self.paths[i].clone());
            line_starts.push(copy_starts(&self.line_starts[i]));
            i = i + 1;
        }
        proof {
            assert(Seq::new(
                paths@.len(),
                |i: int| FileModel { path: paths@[i]@, line_starts: line_starts@[i]@ },
            ) =~= self@);
        }
        SourceMap { paths, line_starts }
    }
}

fn copy_starts(starts: &Vec<u32>) -> (r: Vec<u32>)
    ensures
        r@ == starts@,
{
    let mut out: Vec<u32> = Vec::new();
    let mut i: usize = 0;
    while i < starts.len()
        invariant
            i <= starts@.len(),
            out@ == starts@.take(i as int),
        decreases starts@.len() - i,
    {
        out.push(starts[i]);
        i = i + 1;
    }
    assert(starts@.take(i as int) == starts@);
    out
}

impl Default for SourceMap {
    fn default() -> (r: Self)
        ensures
            r@ == Seq::<FileModel>::empty(),
    {
        SourceMap::new()
    }
}

/// Registering a path twice changes nothing, and gives the same id.
pub proof fn law_interning_is_idempotent(
    files: Seq<FileModel>,
    path: Seq<char>,
    content: Seq<char>,
    again: Seq<char>,
)
    ensures
        interned(interned(files, path, content).0, path, again) == interned(files, path, content),
{
    lemma_find_path(files, path);
    if find_path(files, path) is None {
        let all = interned(files, path, content).0;
        assert(all.drop_last() =~= files);
    }
}

/// A registered path is found under its id, and its id by its path; other files keep
/// theirs.
pub proof fn law_interned_path_is_found(
    files: Seq<FileModel>,
    path: Seq<char>,
    content: Seq<char>,
)
    ensures
        ({
            let (all, id) = interned(files, path, content);
            &&& 0 <= id < all.len()
            &&& all[id].path == path
            &&& find_path(all, path) == Some(id)
            &&& files.is_prefix_of(all)
            &&& forall|other: Seq<char>| #[trigger]
                find_path(files, other) is Some ==> find_path(all, other) == find_path(
                    files,
                    other,
                )
        }),
{
    lemma_find_path(files, path);
    let (all, id) = interned(files, path, content);
    if find_path(files, path) is None {
        assert(all.drop_last() =~= files);
    }
}

/// The line of an offset is one more than the newlines before it, and its column one more
/// than its distance from the last of them.
pub proof fn law_line_and_column(bytes: Seq<u8>, offset: u32)
    requires
        offset <= bytes.len() < u32::MAX,
    ensures
        line_col_in(line_starts_of(bytes), offset) == (LineCol {
            line: (1 + newline_count(bytes.take(offset as int))) as u32,
            col: (offset - last_line_start(bytes.take(offset as int)) + 1) as u32,
        }),
{
    lemma_line_starts(bytes);
    lemma_line_starts(bytes.take(offset as int));
    lemma_line_at(bytes, offset);
    lemma_line_number(line_starts_of(bytes), offset);
}

proof fn lemma_line_at(bytes: Seq<u8>, offset: u32)
    requires
        offset <= bytes.len() < u32::MAX,
    ensures
        line_number(line_starts_of(bytes), offset) == line_starts_of(
            bytes.take(offset as int),
        ).len(),
        line_begin(line_starts_of(bytes), offset) == line_starts_of(
            bytes.take(offset as int),
        ).last(),
    decreases bytes.len(),
{
    lemma_line_starts(bytes);
    let starts = line_starts_of(bytes);
    if offset == bytes.len() {
        assert(bytes.take(offset as int) == bytes);
        lemma_line_starts(bytes);
    } else {
        let rest = bytes.drop_last();
        lemma_line_at(rest, offset);
        assert(rest.take(offset as int) == bytes.take(offset as int));
        lemma_line_starts(rest);
        if bytes.last() == 10u8 {
            let before = line_starts_of(rest);
            assert(starts == before.push(bytes.len() as u32));
            assert(starts.drop_last() =~= before);
            assert(line_number(starts, offset) == line_number(before, offset));
            lemma_line_number(before, offset);
        }
    }
}

} // verus!
