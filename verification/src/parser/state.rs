//! Parser state: the token cursor, diagnostics, and the functions and tasks declared so far.
use super::cst::{CstStmt, Expr, SynExpr, SynStmt};
use crate::lexer::{Token, TokenKind, TokenM};
use crate::text::{chars_of, count_chars_before, str_eq};
use crate::{DiagM, Diagnostic, Severity, SourceFile};
use vstd::prelude::*;

verus! {

/// What is parsed: the tokens, and the text and path of their file.
pub ghost struct Input {
    pub toks: Seq<TokenM>,
    pub content: Seq<char>,
    pub path: Seq<char>,
}

/// A declared function: its formals, and its return value as an expression over them.
#[derive(Debug)]
pub struct FuncDef {
    pub name: String,
    pub args: Vec<String>,
    pub body: Expr,
}

/// Model of [`FuncDef`].
pub ghost struct FuncM {
    pub name: Seq<char>,
    pub args: Seq<Seq<char>>,
    pub body: SynExpr,
}

/// A declared task: its formals, and the statements of its body.
#[derive(Debug)]
pub struct TaskDef {
    pub name: String,
    pub args: Vec<String>,
    pub body: Vec<CstStmt>,
}

/// Model of [`TaskDef`].
pub ghost struct TaskM {
    pub name: Seq<char>,
    pub args: Seq<Seq<char>>,
    pub body: Seq<SynStmt>,
}

impl FuncDef {
    pub open spec fn view(&self) -> FuncM {
        FuncM { name: self.name@, args: super::cst::names_view(self.args@), body: self.body@ }
    }
}

impl TaskDef {
    pub open spec fn view(&self) -> TaskM {
        TaskM {
            name: self.name@,
            args: super::cst::names_view(self.args@),
            body: super::cst::stmts_view(self.body@),
        }
    }
}

pub open spec fn funcs_view(s: Seq<FuncDef>) -> Seq<FuncM> {
    Seq::new(s.len(), |i: int| s[i]@)
}

pub open spec fn tasks_view(s: Seq<TaskDef>) -> Seq<TaskM> {
    Seq::new(s.len(), |i: int| s[i]@)
}

/// Where the parser stands.
pub ghost struct PState {
    pub pos: int,
    pub diags: Seq<DiagM>,
    pub funcs: Seq<FuncM>,
    pub tasks: Seq<TaskM>,
}

/// The tokens end with the end of input, and the cursor is on one of them.
pub open spec fn ok(inp: Input, s: PState) -> bool {
    &&& inp.toks.len() > 0
    &&& inp.toks[inp.toks.len() - 1].kind == TokenKind::Eof
    &&& 0 <= s.pos < inp.toks.len()
}

/// Number of tokens ahead.
pub open spec fn ahead(inp: Input, s: PState) -> int {
    inp.toks.len() - s.pos
}

/// The state `t`, with its cursor held between that of `s` and the last token.
pub open spec fn upto(inp: Input, s: PState, t: PState) -> PState {
    PState {
        pos: if t.pos < s.pos {
            s.pos
        } else if t.pos >= inp.toks.len() {
            inp.toks.len() - 1
        } else {
            t.pos
        },
        ..t
    }
}

pub open spec fn kind(inp: Input, s: PState) -> TokenKind {
    inp.toks[s.pos].kind
}

pub open spec fn lexeme(inp: Input, s: PState) -> Seq<char> {
    inp.toks[s.pos].lexeme
}

/// Past the current token; the last one is never left.
pub open spec fn bump(inp: Input, s: PState) -> PState {
    if s.pos + 1 < inp.toks.len() {
        PState { pos: s.pos + 1, ..s }
    } else {
        s
    }
}

/// Past the current token if it is of kind `k`.
pub open spec fn skip_if(inp: Input, s: PState, k: TokenKind) -> PState {
    if kind(inp, s) == k {
        bump(inp, s)
    } else {
        s
    }
}

pub open spec fn last_end(inp: Input, s: PState) -> u32 {
    if s.pos == 0 {
        0
    } else {
        inp.toks[s.pos - 1].end as u32
    }
}

pub open spec fn cur_start(inp: Input, s: PState) -> u32 {
    inp.toks[s.pos].offset as u32
}

/// Number of newlines in `s`.
pub open spec fn newlines(s: Seq<char>) -> nat
    decreases s.len(),
{
    if s.len() == 0 {
        0
    } else {
        newlines(s.drop_last()) + if s.last() == '\n' {
            1nat
        } else {
            0nat
        }
    }
}

/// Number of characters after the last newline of `s`.
pub open spec fn tail_len(s: Seq<char>) -> nat
    decreases s.len(),
{
    if s.len() == 0 || s.last() == '\n' {
        0
    } else {
        tail_len(s.drop_last()) + 1
    }
}

/// The first `n` characters.
pub open spec fn head(s: Seq<char>, n: nat) -> Seq<char> {
    if n < s.len() {
        s.take(n as int)
    } else {
        s
    }
}

/// One-based line and column after the first `offset` characters of `text`.
pub open spec fn line_col(text: Seq<char>, offset: nat) -> (usize, usize) {
    (
        crate::optimizer::rewrite::sat(1 + newlines(head(text, offset))),
        crate::optimizer::rewrite::sat(1 + tail_len(head(text, offset))),
    )
}

pub fn offset_to_line_col(text: &str, offset: usize) -> (r: (usize, usize))
    ensures
        r == line_col(text@, offset as nat),
{
    let chars = chars_of(text);
    let mut line: usize = 1;
    let mut col: usize = 1;
    let mut i: usize = 0;
    while i < chars.len() && i < offset
        invariant
            i <= chars@.len(),
            i <= offset,
            line == crate::optimizer::rewrite::sat(1 + newlines(chars@.take(i as int))),
            col == crate::optimizer::rewrite::sat(1 + tail_len(chars@.take(i as int))),
        decreases chars@.len() - i,
    {
        assert(chars@.take(i + 1).drop_last() == chars@.take(i as int));
        assert(chars@.take(i + 1).last() == chars@[i as int]);
        if chars[i] == '\n' {
            line = line.saturating_add(1);
            col = 1;
        } else {
            col = col.saturating_add(1);
        }
        i = i + 1;
    }
    proof {
        if i == chars@.len() {
            assert(chars@.take(i as int) == chars@);
        }
        assert(chars@.take(i as int) == head(text@, offset as nat));
    }
    (line, col)
}

/// A diagnostic at the line and column of token `place`.
pub open spec fn diagnosed(
    inp: Input,
    s: PState,
    place: int,
    severity: Severity,
    message: Seq<char>,
) -> PState {
    let (line, column) = line_col(
        inp.content,
        crate::text::chars_before(inp.content, inp.toks[place].offset),
    );
    PState {
        diags: s.diags.push(DiagM { message, severity, line, column, path: inp.path }),
        ..s
    }
}

/// An error at the current token, which is then passed.
pub open spec fn error_here(inp: Input, s: PState, message: Seq<char>) -> PState {
    bump(inp, diagnosed(inp, s, s.pos, Severity::Error, message))
}

/// An identifier, or an error.
pub open spec fn identifier(inp: Input, s: PState, message: Seq<char>) -> (
    Option<Seq<char>>,
    PState,
) {
    if kind(inp, s) == TokenKind::Identifier {
        (Some(lexeme(inp, s)), bump(inp, s))
    } else {
        (None, error_here(inp, s, message))
    }
}

/// First token at or after the cursor whose kind is `k`, or the end of input; past it if
/// it is of kind `k`.
pub open spec fn past(inp: Input, s: PState, k: TokenKind) -> PState
    decreases ahead(inp, s),
    when ok(inp, s)
{
    if kind(inp, s) == TokenKind::Eof {
        s
    } else if kind(inp, s) == k {
        bump(inp, s)
    } else {
        past(inp, bump(inp, s), k)
    }
}

/// Function `name`, the first declared.
pub open spec fn find_func(funcs: Seq<FuncM>, name: Seq<char>) -> Option<FuncM>
    decreases funcs.len(),
{
    if funcs.len() == 0 {
        None
    } else {
        match find_func(funcs.drop_last(), name) {
            Some(f) => Some(f),
            None => if funcs.last().name == name {
                Some(funcs.last())
            } else {
                None
            },
        }
    }
}

/// Task `name`, the first declared.
pub open spec fn find_task(tasks: Seq<TaskM>, name: Seq<char>) -> Option<TaskM>
    decreases tasks.len(),
{
    if tasks.len() == 0 {
        None
    } else {
        match find_task(tasks.drop_last(), name) {
            Some(t) => Some(t),
            None => if tasks.last().name == name {
                Some(tasks.last())
            } else {
                None
            },
        }
    }
}

/// Formals with their actuals, as far as both go.
pub open spec fn zip_args(formals: Seq<Seq<char>>, actuals: Seq<SynExpr>) -> Seq<
    (Seq<char>, SynExpr),
> {
    Seq::new(
        if formals.len() <= actuals.len() {
            formals.len()
        } else {
            actuals.len()
        },
        |i: int| (formals[i], actuals[i]),
    )
}

pub fn zip_actuals(formals: &Vec<String>, actuals: &Vec<Expr>) -> (r: Vec<(String, Expr)>)
    ensures
        super::cst::pairs_view(r@) == zip_args(
            super::cst::names_view(formals@),
            super::cst::exprs_view(actuals@),
        ),
{
    let mut out: Vec<(String, Expr)> = Vec::new();
    let mut i: usize = 0;
    while i < formals.len() && i < actuals.len()
        invariant
            i <= formals@.len(),
            i <= actuals@.len(),
            out@.len() == i,
            forall|j: int|
                0 <= j < i ==> (#[trigger] out@[j]).0@ == formals@[j]@ && out@[j].1@
                    == actuals@[j]@,
        decreases formals@.len() - i,
    {
        out.push((formals[i].clone(), actuals[i].clone()));
        i = i + 1;
    }
    assert(super::cst::pairs_view(out@) =~= zip_args(
        super::cst::names_view(formals@),
        super::cst::exprs_view(actuals@),
    ));
    out
}

/// The parser.
pub struct Parser<'a> {
    pub file: &'a SourceFile,
    pub tokens: &'a [Token],
    pub pos: usize,
    pub diagnostics: Vec<Diagnostic>,
    pub functions: Vec<FuncDef>,
    pub tasks: Vec<TaskDef>,
}

impl<'a> Parser<'a> {
    pub open spec fn input(&self) -> Input {
        Input {
            toks: crate::lexer::tokens_view(self.tokens@),
            content: self.file.content@,
            path: self.file.path@,
        }
    }

    pub open spec fn st(&self) -> PState {
        PState {
            pos: self.pos as int,
            diags: crate::diags_view(self.diagnostics@),
            funcs: funcs_view(self.functions@),
            tasks: tasks_view(self.tasks@),
        }
    }

    pub open spec fn wf(&self) -> bool {
        ok(self.input(), self.st())
    }

    /// The parser works on the same input as `before`, at its place or further on.
    pub open spec fn after(&self, before: Self) -> bool {
        &&& self.wf()
        &&& self.file == before.file
        &&& self.tokens == before.tokens
        &&& self.pos >= before.pos
    }

    pub fn new(file: &'a SourceFile, tokens: &'a [Token]) -> (r: Self)
        ensures
            r.file == file,
            r.tokens == tokens,
            r.st() == (PState {
                pos: 0,
                diags: Seq::empty(),
                funcs: Seq::empty(),
                tasks: Seq::empty(),
            }),
    {
        let r = Parser {
            file,
            tokens,
            pos: 0,
            diagnostics: Vec::new(),
            functions: Vec::new(),
            tasks: Vec::new(),
        };
        assert(r.st().diags =~= Seq::empty());
        assert(r.st().funcs =~= Seq::empty());
        assert(r.st().tasks =~= Seq::empty());
        r
    }

    pub fn kind(&self) -> (r: TokenKind)
        requires
            self.wf(),
        ensures
            r == kind(self.input(), self.st()),
    {
        self.tokens[self.pos].kind
    }

    pub fn at(&self, k: TokenKind) -> (r: bool)
        requires
            self.wf(),
        ensures
            r == (kind(self.input(), self.st()) == k),
    {
        self.tokens[self.pos].kind == k
    }

    pub fn lexeme(&self) -> (r: String)
        requires
            self.wf(),
        ensures
            r@ == lexeme(self.input(), self.st()),
    {
        self.tokens[self.pos].lexeme.clone()
    }

    pub fn bump(&mut self)
        requires
            old(self).wf(),
        ensures
            final(self).after(*old(self)),
            final(self).st() == bump(old(self).input(), old(self).st()),
    {
        assert(self.tokens@.len() == self.tokens.len());
        if self.pos < self.tokens.len() - 1 {
            self.pos = self.pos + 1;
        }
    }

    pub fn match_kind(&mut self, k: TokenKind) -> (r: bool)
        requires
            old(self).wf(),
        ensures
            final(self).after(*old(self)),
            r == (kind(old(self).input(), old(self).st()) == k),
            final(self).st() == skip_if(old(self).input(), old(self).st(), k),
    {
        if self.at(k) {
            self.bump();
            true
        } else {
            false
        }
    }

    /// End of the token before the current one; zero at the first.
    pub fn last_end(&self) -> (r: u32)
        requires
            self.wf(),
        ensures
            r == last_end(self.input(), self.st()),
    {
        if self.pos == 0 {
            0
        } else {
            self.tokens[self.pos - 1].end as u32
        }
    }

    /// Start of the current token.
    pub fn cur_start(&self) -> (r: u32)
        requires
            self.wf(),
        ensures
            r == cur_start(self.input(), self.st()),
    {
        self.tokens[self.pos].offset as u32
    }

    pub(crate) fn diagnose(&mut self, place: usize, severity: Severity, message: &str)
        requires
            old(self).wf(),
            place < old(self).tokens@.len(),
        ensures
            final(self).after(*old(self)),
            final(self).st() == diagnosed(
                old(self).input(),
                old(self).st(),
                place as int,
                severity,
                message@,
            ),
    {
        let content = self.file.content.as_str();
        let chars = chars_of(content);
        let count = count_chars_before(chars.as_slice(), self.tokens[place].offset);
        let (line, column) = offset_to_line_col(content, count);
        self.diagnostics.push(
            Diagnostic {
                message: message.to_owned(),
                severity,
                line,
                column,
                path: self.file.path.clone(),
            },
        );
        assert(self.st().diags =~= old(self).st().diags.push(
            DiagM {
                message: message@,
                severity,
                line,
                column,
                path: old(self).input().path,
            },
        ));
    }

    pub fn error_at_current(&mut self, message: &str)
        requires
            old(self).wf(),
        ensures
            final(self).after(*old(self)),
            final(self).st() == error_here(old(self).input(), old(self).st(), message@),
    {
        self.diagnose(self.pos, Severity::Error, message);
        self.bump();
    }

    pub fn expect_identifier(&mut self, message: &str) -> (r: Option<String>)
        requires
            old(self).wf(),
        ensures
            final(self).after(*old(self)),
            (match r {
                Some(n) => Some(n@),
                None => None,
            }, final(self).st()) == identifier(old(self).input(), old(self).st(), message@),
    {
        if self.at(TokenKind::Identifier) {
            let name = self.lexeme();
            self.bump();
            Some(name)
        } else {
            self.error_at_current(message);
            None
        }
    }

    /// Skips up to and past the next token of kind `k`.
    pub fn skip_past(&mut self, k: TokenKind)
        requires
            old(self).wf(),
        ensures
            final(self).after(*old(self)),
            final(self).st() == past(old(self).input(), old(self).st(), k),
    {
        let ghost inp = self.input();
        let ghost s0 = self.st();
        while !self.at(TokenKind::Eof)
            invariant_except_break
                self.after(*old(self)),
                inp == old(self).input(),
                past(inp, self.st(), k) == past(inp, s0, k),
            ensures
                self.after(*old(self)),
                self.st() == past(inp, s0, k),
            decreases ahead(inp, self.st()),
        {
            if self.at(k) {
                self.bump();
                break;
            }
            self.bump();
        }
    }

    pub fn function_index(&self, name: &str) -> (r: Option<usize>)
        ensures
            match r {
                Some(i) => i < self.functions@.len() && find_func(self.st().funcs, name@) == Some(
                    self.functions@[i as int]@,
                ),
                None => find_func(self.st().funcs, name@) is None,
            },
    {
        let ghost model = self.st().funcs;
        let mut i: usize = 0;
        while i < self.functions.len()
            invariant
                i <= self.functions@.len(),
                model == funcs_view(self.functions@),
                find_func(model.take(i as int), name@) is None,
            decreases self.functions@.len() - i,
        {
            assert(model.take(i + 1).drop_last() == model.take(i as int));
            assert(model.take(i + 1).last() == model[i as int]);
            if str_eq(self.functions[i].name.as_str(), name) {
                proof {
                    lemma_find_func_prefix(model, i + 1, name@);
                }
                return Some(i);
            }
            i = i + 1;
        }
        assert(model.take(i as int) == model);
        None
    }

    pub fn task_index(&self, name: &str) -> (r: Option<usize>)
        ensures
            match r {
                Some(i) => i < self.tasks@.len() && find_task(self.st().tasks, name@) == Some(
                    self.tasks@[i as int]@,
                ),
                None => find_task(self.st().tasks, name@) is None,
            },
    {
        let ghost model = self.st().tasks;
        let mut i: usize = 0;
        while i < self.tasks.len()
            invariant
                i <= self.tasks@.len(),
                model == tasks_view(self.tasks@),
                find_task(model.take(i as int), name@) is None,
            decreases self.tasks@.len() - i,
        {
            assert(model.take(i + 1).drop_last() == model.take(i as int));
            assert(model.take(i + 1).last() == model[i as int]);
            if str_eq(self.tasks[i].name.as_str(), name) {
                proof {
                    lemma_find_task_prefix(model, i + 1, name@);
                }
                return Some(i);
            }
            i = i + 1;
        }
        assert(model.take(i as int) == model);
        None
    }
}

proof fn lemma_find_func_prefix(funcs: Seq<FuncM>, k: int, name: Seq<char>)
    requires
        0 <= k <= funcs.len(),
        find_func(funcs.take(k), name) is Some,
    ensures
        find_func(funcs, name) == find_func(funcs.take(k), name),
    decreases funcs.len(),
{
    if k == funcs.len() {
        assert(funcs.take(k) == funcs);
    } else {
        assert(funcs.drop_last().take(k) == funcs.take(k));
        lemma_find_func_prefix(funcs.drop_last(), k, name);
    }
}

proof fn lemma_find_task_prefix(tasks: Seq<TaskM>, k: int, name: Seq<char>)
    requires
        0 <= k <= tasks.len(),
        find_task(tasks.take(k), name) is Some,
    ensures
        find_task(tasks, name) == find_task(tasks.take(k), name),
    decreases tasks.len(),
{
    if k == tasks.len() {
        assert(tasks.take(k) == tasks);
    } else {
        assert(tasks.drop_last().take(k) == tasks.take(k));
        lemma_find_task_prefix(tasks.drop_last(), k, name);
    }
}

} // verus!
