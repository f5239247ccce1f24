//! Functions and tasks.
//!
//! A function is kept as one expression over its formals: its body is a sequence of
//! blocking assignments, each bound for those after it, and the last one to the name of
//! the function is its value. A task is kept as the statements of its body. Both are
//! written out where they are called.
use super::cst::{CstStmt, Expr, SynExpr, SynStmt};
use super::state::{FuncDef, FuncM, Input, PState, Parser, TaskDef, TaskM};
use super::subst::{subst_expr_multi, Subs};
use crate::lexer::TokenKind;
use crate::text::{concat_str, str_eq};
use crate::Severity;
use vstd::prelude::*;

verus! {

/// Past a range in brackets, if there is one.
pub open spec fn skip_range(inp: Input, s: PState) -> PState {
    if super::state::kind(inp, s) == TokenKind::LBracket {
        super::state::past(inp, super::state::bump(inp, s), TokenKind::RBracket)
    } else {
        s
    }
}

/// Past `wire`, `reg` or `logic`, if one of them follows.
pub open spec fn skip_net_type(inp: Input, s: PState) -> PState {
    match super::state::kind(inp, s) {
        TokenKind::Wire => super::state::bump(inp, s),
        TokenKind::Reg => super::state::bump(inp, s),
        TokenKind::Logic => super::state::bump(inp, s),
        _ => s,
    }
}

/// The declaration of one argument, with the cursor on its direction.
pub open spec fn p_argument(inp: Input, s: PState, message: Seq<char>) -> (
    Option<Seq<char>>,
    PState,
) {
    let s1 = skip_net_type(inp, super::state::bump(inp, s));
    let s2 = skip_range(inp, super::state::skip_if(inp, s1, TokenKind::Signed));
    let (name, s3) = super::state::identifier(inp, s2, message);
    (name, super::state::skip_if(inp, s3, TokenKind::Semicolon))
}

pub open spec fn with_name(names: Seq<Seq<char>>, name: Option<Seq<char>>) -> Seq<Seq<char>> {
    match name {
        Some(n) => names.push(n),
        None => names,
    }
}

/// The token starts a local declaration.
pub open spec fn is_local(k: TokenKind) -> bool {
    k == TokenKind::Reg || k == TokenKind::Integer || k == TokenKind::Logic
}

/// The declarations of a function: its inputs, and locals, which are passed over.
pub open spec fn p_func_decls(inp: Input, s: PState, args: Seq<Seq<char>>) -> (
    Seq<Seq<char>>,
    PState,
)
    decreases super::state::ahead(inp, s),
    when super::state::ok(inp, s)
{
    let k = super::state::kind(inp, s);
    if k == TokenKind::Input {
        let (name, s1) = p_argument(inp, s, "expected function argument name"@);
        p_func_decls(inp, super::stmt::beyond(inp, s, s1), with_name(args, name))
    } else if is_local(k) {
        p_func_decls(
            inp,
            super::stmt::beyond(inp, s, super::state::past(inp, s, TokenKind::Semicolon)),
            args,
        )
    } else {
        (args, s)
    }
}

/// The token starts a statement.
pub open spec fn starts_stmt(k: TokenKind) -> bool {
    k == TokenKind::Hash || k == TokenKind::Identifier || k == TokenKind::If || k
        == TokenKind::Case || k == TokenKind::Casez || k == TokenKind::Casex || k
        == TokenKind::For || k == TokenKind::LBrace
}

/// Text of the error for a function body.
pub open spec fn func_body_message(name: Seq<char>) -> Seq<char> {
    "function `"@ + name + "` body must be `begin "@ + name + " = <expr>; end` for now"@
}

/// The assignments of a function body. `lets` holds what the names assigned so far stand
/// for, the latest first, and `value` what the function has been given. The result is the
/// value where no further statement follows; nothing where the body is rejected, in which
/// case the cursor is past the function. A body that gives the function no value is
/// rejected at `first`, the token that it starts with.
pub open spec fn p_func_body(
    inp: Input,
    s: PState,
    first: int,
    name: Seq<char>,
    lets: Subs,
    value: Option<SynExpr>,
) -> (Option<SynExpr>, PState)
    decreases super::state::ahead(inp, s),
    when super::state::ok(inp, s)
{
    let k = super::state::kind(inp, s);
    if is_local(k) && value is None {
        p_func_body(
            inp,
            super::stmt::beyond(inp, s, super::state::past(inp, s, TokenKind::Semicolon)),
            first,
            name,
            lets,
            value,
        )
    } else if !starts_stmt(k) && value is Some {
        (value, s)
    } else if k == TokenKind::Identifier && s.pos + 1 < inp.toks.len() && inp.toks[s.pos + 1].kind
        == TokenKind::Eq {
        let target = super::state::lexeme(inp, s);
        let s1 = super::state::bump(inp, super::state::bump(inp, s));
        let (e, s2) = super::expr::p_expr(inp, s1, 0);
        let s3 = super::stmt::beyond(
            inp,
            s,
            super::state::skip_if(inp, s2, TokenKind::Semicolon),
        );
        let bound = super::subst::subst_expr(e, lets);
        if target == name {
            p_func_body(inp, s3, first, name, lets, Some(bound))
        } else {
            p_func_body(inp, s3, first, name, seq![(target, bound)] + lets, value)
        }
    } else if k == TokenKind::Identifier && super::state::lexeme(inp, s) == name {
        (
            None,
            super::state::past(inp, super::state::bump(inp, s), TokenKind::Endfunction),
        )
    } else if !starts_stmt(k) && first < s.pos {
        (
            None,
            super::state::past(
                inp,
                super::state::diagnosed(
                    inp,
                    s,
                    first,
                    Severity::Error,
                    func_body_message(name),
                ),
                TokenKind::Endfunction,
            ),
        )
    } else {
        (
            None,
            super::state::past(
                inp,
                super::state::error_here(inp, s, func_body_message(name)),
                TokenKind::Endfunction,
            ),
        )
    }
}

/// A function declaration. A function whose body is rejected is not declared.
pub open spec fn p_function(inp: Input, s: PState) -> PState {
    let s1 = super::state::skip_if(inp, super::state::bump(inp, s), TokenKind::Signed);
    let s2 = skip_range(inp, s1);
    let (name, s3) = super::state::identifier(inp, s2, "expected function name"@);
    match name {
        None => super::state::past(inp, s3, TokenKind::Endfunction),
        Some(name) => {
            let s4 = super::state::skip_if(inp, s3, TokenKind::Semicolon);
            let (args, s5) = p_func_decls(inp, s4, Seq::empty());
            let begins = super::state::kind(inp, s5) == TokenKind::Begin;
            let s6 = super::state::skip_if(inp, s5, TokenKind::Begin);
            let (value, s7) = p_func_body(inp, s6, s6.pos, name, Seq::empty(), None);
            match value {
                None => s7,
                Some(body) => {
                    let s8 = if begins {
                        super::state::skip_if(inp, s7, TokenKind::End)
                    } else {
                        s7
                    };
                    let s9 = super::state::skip_if(inp, s8, TokenKind::Endfunction);
                    PState { funcs: s9.funcs.push(FuncM { name, args, body }), ..s9 }
                },
            }
        },
    }
}

/// The token is a direction.
pub open spec fn is_direction(k: TokenKind) -> bool {
    k == TokenKind::Input || k == TokenKind::Output || k == TokenKind::Inout
}

/// The argument declarations of a task.
pub open spec fn p_task_decls(inp: Input, s: PState, args: Seq<Seq<char>>) -> (
    Seq<Seq<char>>,
    PState,
)
    decreases super::state::ahead(inp, s),
    when super::state::ok(inp, s)
{
    if is_direction(super::state::kind(inp, s)) {
        let (name, s1) = p_argument(inp, s, "expected task argument name"@);
        p_task_decls(inp, super::stmt::beyond(inp, s, s1), with_name(args, name))
    } else {
        (args, s)
    }
}

pub open spec fn task_body_message(name: Seq<char>) -> Seq<char> {
    "task `"@ + name + "` body could not be parsed"@
}

/// The token starts an item of a module, or ends the module.
pub open spec fn starts_item(k: TokenKind) -> bool {
    k == TokenKind::Function || k == TokenKind::Task || k == TokenKind::Genvar || k
        == TokenKind::Generate || is_direction(k) || k == TokenKind::Wire || is_local(k) || k
        == TokenKind::Assign || k == TokenKind::Always || k == TokenKind::Initial || k
        == TokenKind::Parameter || k == TokenKind::Localparam || k == TokenKind::Endmodule
}

/// The token is none of a task body.
pub open spec fn ends_task_body(k: TokenKind) -> bool {
    k == TokenKind::End || k == TokenKind::Endtask || k == TokenKind::Eof || starts_item(k)
}

/// The further statements of a task body. A token that starts none is passed over.
pub open spec fn p_task_rest(inp: Input, s: PState, so_far: Seq<SynStmt>) -> (
    Seq<SynStmt>,
    PState,
)
    decreases super::state::ahead(inp, s),
    when super::state::ok(inp, s)
{
    if ends_task_body(super::state::kind(inp, s)) {
        (so_far, s)
    } else {
        let (stmts, s1) = super::stmt::p_stmt(inp, s);
        p_task_rest(
            inp,
            super::stmt::beyond(inp, s, s1),
            match stmts {
                Some(stmts) => so_far + stmts,
                None => so_far,
            },
        )
    }
}

/// The body of a task: a block that starts with a statement, or a single statement.
pub open spec fn p_task_body(inp: Input, s: PState) -> (Option<Seq<SynStmt>>, PState) {
    if super::state::kind(inp, s) == TokenKind::Begin {
        let (stmts, s1) = super::stmt::p_stmt(inp, super::state::bump(inp, s));
        match stmts {
            None => (None, s1),
            Some(stmts) => {
                let (all, s2) = p_task_rest(inp, s1, stmts);
                (Some(all), super::state::skip_if(inp, s2, TokenKind::End))
            },
        }
    } else {
        super::stmt::p_stmt(inp, s)
    }
}

/// A task declaration. A task whose body does not start with a statement is not declared.
pub open spec fn p_task(inp: Input, s: PState) -> PState {
    let (name, s1) = super::state::identifier(
        inp,
        super::state::bump(inp, s),
        "expected task name"@,
    );
    match name {
        None => super::state::past(inp, s1, TokenKind::Endtask),
        Some(name) => {
            let s2 = super::state::skip_if(inp, s1, TokenKind::Semicolon);
            let (args, s3) = p_task_decls(inp, s2, Seq::empty());
            let (body, s4) = p_task_body(inp, s3);
            match body {
                None => super::state::past(
                    inp,
                    super::state::error_here(inp, s4, task_body_message(name)),
                    TokenKind::Endtask,
                ),
                Some(body) => {
                    let s5 = super::state::skip_if(inp, s4, TokenKind::Endtask);
                    PState { tasks: s5.tasks.push(TaskM { name, args, body }), ..s5 }
                },
            }
        },
    }
}

fn is_local_kind(k: TokenKind) -> (r: bool)
    ensures
        r == is_local(k),
{
    k == TokenKind::Reg || k == TokenKind::Integer || k == TokenKind::Logic
}

pub(crate) fn is_direction_kind(k: TokenKind) -> (r: bool)
    ensures
        r == is_direction(k),
{
    k == TokenKind::Input || k == TokenKind::Output || k == TokenKind::Inout
}

fn is_stmt_start(k: TokenKind) -> (r: bool)
    ensures
        r == starts_stmt(k),
{
    k == TokenKind::Hash || k == TokenKind::Identifier || k == TokenKind::If || k
        == TokenKind::Case || k == TokenKind::Casez || k == TokenKind::Casex || k
        == TokenKind::For || k == TokenKind::LBrace
}

fn is_item_start(k: TokenKind) -> (r: bool)
    ensures
        r == starts_item(k),
{
    k == TokenKind::Function || k == TokenKind::Task || k == TokenKind::Genvar || k
        == TokenKind::Generate || is_direction_kind(k) || k == TokenKind::Wire || is_local_kind(k)
        || k == TokenKind::Assign || k == TokenKind::Always || k == TokenKind::Initial || k
        == TokenKind::Parameter || k == TokenKind::Localparam || k == TokenKind::Endmodule
}

fn is_task_body_end(k: TokenKind) -> (r: bool)
    ensures
        r == ends_task_body(k),
{
    k == TokenKind::End || k == TokenKind::Endtask || k == TokenKind::Eof || is_item_start(k)
}

impl<'a> Parser<'a> {
    pub(crate) fn skip_range(&mut self)
        requires
            old(self).wf(),
        ensures
            final(self).after(*old(self)),
            final(self).st() == skip_range(old(self).input(), old(self).st()),
    {
        if self.match_kind(TokenKind::LBracket) {
            self.skip_past(TokenKind::RBracket);
        }
    }

    pub(crate) fn skip_net_type(&mut self)
        requires
            old(self).wf(),
        ensures
            final(self).after(*old(self)),
            final(self).st() == skip_net_type(old(self).input(), old(self).st()),
    {
        if self.at(TokenKind::Wire) || self.at(TokenKind::Reg) || self.at(TokenKind::Logic) {
            self.bump();
        }
    }

    fn parse_argument(&mut self, message: &str) -> (r: Option<String>)
        requires
            old(self).wf(),
        ensures
            final(self).after(*old(self)),
            super::state::kind(old(self).input(), old(self).st()) != TokenKind::Eof
                ==> final(self).pos > old(self).pos,
            (match r {
                Some(n) => Some(n@),
                None => None,
            }, final(self).st()) == p_argument(old(self).input(), old(self).st(), message@),
    {
        self.bump();
        self.skip_net_type();
        let _ = self.match_kind(TokenKind::Signed);
        self.skip_range();
        let name = self.expect_identifier(message);
        let _ = self.match_kind(TokenKind::Semicolon);
        name
    }

    fn parse_func_decls(&mut self) -> (r: Vec<String>)
        requires
            old(self).wf(),
        ensures
            final(self).after(*old(self)),
            (super::cst::names_view(r@), final(self).st()) == p_func_decls(
                old(self).input(),
                old(self).st(),
                Seq::empty(),
            ),
    {
        let ghost inp = self.input();
        let ghost s0 = self.st();
        let mut args: Vec<String> = Vec::new();
        assert(super::cst::names_view(args@) =~= Seq::empty());
        while self.at(TokenKind::Input) || is_local_kind(self.kind())
            invariant
                self.after(*old(self)),
                inp == old(self).input(),
                p_func_decls(inp, self.st(), super::cst::names_view(args@)) == p_func_decls(
                    inp,
                    s0,
                    Seq::empty(),
                ),
            decreases super::state::ahead(inp, self.st()),
        {
            if self.at(TokenKind::Input) {
                let ghost before = super::cst::names_view(args@);
                if let Some(arg) = self.parse_argument("expected function argument name") {
                    args.push(arg);
                    assert(super::cst::names_view(args@) =~= before.push(arg@));
                }
            } else {
                proof {
                    lemma_past_moves(inp, self.st(), TokenKind::Semicolon);
                }
                self.skip_past(TokenKind::Semicolon);
            }
        }
        args
    }

    fn parse_func_body(&mut self, name: &str) -> (r: Option<Expr>)
        requires
            old(self).wf(),
        ensures
            final(self).after(*old(self)),
            (match r {
                Some(e) => Some(e@),
                None => None,
            }, final(self).st()) == p_func_body(
                old(self).input(),
                old(self).st(),
                old(self).st().pos,
                name@,
                Seq::empty(),
                None,
            ),
    {
        let ghost inp = self.input();
        let ghost s0 = self.st();
        let first = self.pos;
        let mut lets: Vec<(String, Expr)> = Vec::new();
        let mut value: Option<Expr> = None;
        assert(super::cst::pairs_view(lets@) =~= Seq::empty());
        loop
            invariant
                self.after(*old(self)),
                inp == old(self).input(),
                first == s0.pos,
                p_func_body(
                    inp,
                    self.st(),
                    first as int,
                    name@,
                    super::cst::pairs_view(lets@),
                    match value {
                        Some(e) => Some(e@),
                        None => None,
                    },
                ) == p_func_body(inp, s0, s0.pos, name@, Seq::empty(), None),
                s0 == old(self).st(),
            decreases super::state::ahead(inp, self.st()),
        {
            let k = self.kind();
            if is_local_kind(k) && value.is_none() {
                proof {
                    lemma_past_moves(inp, self.st(), TokenKind::Semicolon);
                }
                self.skip_past(TokenKind::Semicolon);
                continue ;
            }
            if !is_stmt_start(k) && value.is_some() {
                return value;
            }
            assert(self.tokens@.len() == self.tokens.len());
            if k == TokenKind::Identifier && self.pos + 1 < self.tokens.len()
                && self.tokens[self.pos + 1].kind == TokenKind::Eq {
                let target = self.lexeme();
                self.bump();
                self.bump();
                let e = self.parse_expression(0);
                let _ = self.match_kind(TokenKind::Semicolon);
                let bound = subst_expr_multi(&e, lets.as_slice());
                if str_eq(target.as_str(), name) {
                    value = Some(bound);
                } else {
                    let ghost before = super::cst::pairs_view(lets@);
                    lets.insert(0, (target, bound));
                    assert(super::cst::pairs_view(lets@) =~= seq![(target@, bound@)] + before);
                }
                continue ;
            }
            let word = self.lexeme();
            if k == TokenKind::Identifier && str_eq(word.as_str(), name) {
                self.bump();
            } else {
                let head = concat_str("function `", name);
                let middle = concat_str(head.as_str(), "` body must be `begin ");
                let most = concat_str(middle.as_str(), name);
                let message = concat_str(most.as_str(), " = <expr>; end` for now");
                if !is_stmt_start(k) && first < self.pos {
                    self.diagnose(first, Severity::Error, message.as_str());
                } else {
                    self.error_at_current(message.as_str());
                }
            }
            self.skip_past(TokenKind::Endfunction);
            return None;
        }
    }

    pub fn parse_function_decl(&mut self)
        requires
            old(self).wf(),
        ensures
            final(self).after(*old(self)),
            super::state::kind(old(self).input(), old(self).st()) != TokenKind::Eof
                ==> final(self).pos > old(self).pos,
            final(self).st() == p_function(old(self).input(), old(self).st()),
    {
        self.bump();
        let _ = self.match_kind(TokenKind::Signed);
        self.skip_range();
        let name = match self.expect_identifier("expected function name") {
            Some(n) => n,
            None => {
                self.skip_past(TokenKind::Endfunction);
                return;
            },
        };
        let _ = self.match_kind(TokenKind::Semicolon);
        let args = self.parse_func_decls();
        let begins = self.match_kind(TokenKind::Begin);
        let body = match self.parse_func_body(name.as_str()) {
            Some(e) => e,
            None => {
                return;
            },
        };
        if begins {
            let _ = self.match_kind(TokenKind::End);
        }
        let _ = self.match_kind(TokenKind::Endfunction);
        let ghost s9 = self.st();
        let f = FuncDef { name, args, body };
        self.functions.push(f);
        assert(self.st().funcs =~= s9.funcs.push(f@));
    }

    fn parse_task_decls(&mut self) -> (r: Vec<String>)
        requires
            old(self).wf(),
        ensures
            final(self).after(*old(self)),
            (super::cst::names_view(r@), final(self).st()) == p_task_decls(
                old(self).input(),
                old(self).st(),
                Seq::empty(),
            ),
    {
        let ghost inp = self.input();
        let ghost s0 = self.st();
        let mut args: Vec<String> = Vec::new();
        assert(super::cst::names_view(args@) =~= Seq::empty());
        while is_direction_kind(self.kind())
            invariant
                self.after(*old(self)),
                inp == old(self).input(),
                p_task_decls(inp, self.st(), super::cst::names_view(args@)) == p_task_decls(
                    inp,
                    s0,
                    Seq::empty(),
                ),
            decreases super::state::ahead(inp, self.st()),
        {
            let ghost before = super::cst::names_view(args@);
            if let Some(arg) = self.parse_argument("expected task argument name") {
                args.push(arg);
                assert(super::cst::names_view(args@) =~= before.push(arg@));
            }
        }
        args
    }

    fn parse_task_rest(&mut self, all: &mut Vec<CstStmt>)
        requires
            old(self).wf(),
        ensures
            final(self).after(*old(self)),
            (super::cst::stmts_view(final(all)@), final(self).st()) == p_task_rest(
                old(self).input(),
                old(self).st(),
                super::cst::stmts_view(old(all)@),
            ),
    {
        let ghost inp = self.input();
        let ghost s0 = self.st();
        let ghost given = super::cst::stmts_view(all@);
        while !is_task_body_end(self.kind())
            invariant
                self.after(*old(self)),
                inp == old(self).input(),
                p_task_rest(inp, self.st(), super::cst::stmts_view(all@)) == p_task_rest(
                    inp,
                    s0,
                    given,
                ),
            decreases super::state::ahead(inp, self.st()),
        {
            if let Some(stmts) = self.parse_stmt() {
                let mut stmts = stmts;
                let ghost had = super::cst::stmts_view(all@);
                let ghost more = super::cst::stmts_view(stmts@);
                all.append(&mut stmts);
                assert(super::cst::stmts_view(all@) =~= had + more);
            }
        }
    }

    fn parse_task_body(&mut self) -> (r: Option<Vec<CstStmt>>)
        requires
            old(self).wf(),
        ensures
            final(self).after(*old(self)),
            (super::stmt::stmts_result(r), final(self).st()) == p_task_body(
                old(self).input(),
                old(self).st(),
            ),
    {
        if self.match_kind(TokenKind::Begin) {
            let mut all = self.parse_stmt()?;
            self.parse_task_rest(&mut all);
            let _ = self.match_kind(TokenKind::End);
            Some(all)
        } else {
            self.parse_stmt()
        }
    }

    pub fn parse_task_decl(&mut self)
        requires
            old(self).wf(),
        ensures
            final(self).after(*old(self)),
            super::state::kind(old(self).input(), old(self).st()) != TokenKind::Eof
                ==> final(self).pos > old(self).pos,
            final(self).st() == p_task(old(self).input(), old(self).st()),
    {
        self.bump();
        let name = match self.expect_identifier("expected task name") {
            Some(n) => n,
            None => {
                self.skip_past(TokenKind::Endtask);
                return;
            },
        };
        let _ = self.match_kind(TokenKind::Semicolon);
        let args = self.parse_task_decls();
        let body = match self.parse_task_body() {
            Some(stmts) => stmts,
            None => {
                let head = concat_str("task `", name.as_str());
                let message = concat_str(head.as_str(), "` body could not be parsed");
                self.error_at_current(message.as_str());
                self.skip_past(TokenKind::Endtask);
                return;
            },
        };
        let _ = self.match_kind(TokenKind::Endtask);
        let ghost s5 = self.st();
        let t = TaskDef { name, args, body };
        self.tasks.push(t);
        assert(self.st().tasks =~= s5.tasks.push(t@));
    }
}

/// Skipping to a kind of token that is not the current one moves the cursor.
pub proof fn lemma_past_moves(inp: Input, s: PState, k: TokenKind)
    requires
        super::state::ok(inp, s),
    ensures
        super::state::past(inp, s, k).pos >= s.pos,
        super::state::past(inp, s, k).pos < inp.toks.len(),
        super::state::kind(inp, s) != TokenKind::Eof ==> super::state::past(inp, s, k).pos
            > s.pos,
    decreases super::state::ahead(inp, s),
{
    if super::state::kind(inp, s) != TokenKind::Eof && super::state::kind(inp, s) != k {
        lemma_past_moves(inp, super::state::bump(inp, s), k);
    }
}

} // verus!
