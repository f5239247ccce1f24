//! Procedural statements.
use super::cst::{
    AssignTarget, CaseArm, CaseKind, CstBlock, CstStmt, EdgeKind, Expr, SensEdge, Sensitivity,
    SynArm, SynBlock, SynExpr, SynSens, SynStmt, SynTarget,
};
use super::state::{zip_actuals, Input, PState, Parser};
use crate::delay_rational::DelayRational;
use crate::lexer::TokenKind;
use crate::text::{chars_of, push_char, str_eq};
use vstd::prelude::*;
use vstd::string::StringExecFns;

verus! {

/// The state `t`, with its cursor at least one token beyond that of `s`.
pub open spec fn beyond(inp: Input, s: PState, t: PState) -> PState {
    super::state::upto(inp, super::state::bump(inp, s), t)
}

/// An optional bit- or part-select after the name of a target.
pub open spec fn p_target(inp: Input, s: PState, reg: Seq<char>) -> (SynTarget, PState) {
    if super::state::kind(inp, s) == TokenKind::LBracket {
        let (msb, lsb, s1) = super::expr::p_index(inp, super::state::bump(inp, s));
        match lsb {
            Some(l) => (SynTarget::PartSelect { reg, msb, lsb: *l }, s1),
            None => (SynTarget::BitSelect { reg, index: msb }, s1),
        }
    } else {
        (SynTarget::Whole(reg), s)
    }
}

/// A concatenation of targets, in braces. A token that starts no target gives the
/// statement up, up to its semicolon.
pub open spec fn p_concat_target(inp: Input, s: PState) -> (Option<SynTarget>, PState)
    decreases super::state::ahead(inp, s), 0int,
    when super::state::ok(inp, s)
{
    if super::state::kind(inp, s) == TokenKind::LBrace {
        p_target_parts(inp, super::state::bump(inp, s), Seq::empty())
    } else {
        (None, s)
    }
}

/// The rest of a concatenation of targets, after the parts in `so_far`.
pub open spec fn p_target_parts(inp: Input, s: PState, so_far: Seq<SynTarget>) -> (
    Option<SynTarget>,
    PState,
)
    decreases super::state::ahead(inp, s), 1int,
    when super::state::ok(inp, s)
{
    let k = super::state::kind(inp, s);
    if k == TokenKind::RBrace {
        (Some(SynTarget::Concat(so_far)), super::state::bump(inp, s))
    } else {
        let (part, s1) = if k == TokenKind::LBrace {
            p_concat_target(inp, s)
        } else if k == TokenKind::Identifier {
            let (t, s1) = p_target(
                inp,
                super::state::bump(inp, s),
                super::state::lexeme(inp, s),
            );
            (Some(t), s1)
        } else {
            (None, super::state::past(inp, s, TokenKind::Semicolon))
        };
        let s1 = super::state::upto(inp, s, s1);
        match part {
            None => (None, s1),
            Some(t) => if super::state::kind(inp, s1) == TokenKind::Comma {
                p_target_parts(inp, super::state::bump(inp, s1), so_far.push(t))
            } else {
                (
                    Some(SynTarget::Concat(so_far.push(t))),
                    super::state::skip_if(inp, s1, TokenKind::RBrace),
                )
            },
        }
    }
}

/// `<= rhs;` or `= rhs;` after a target; otherwise the statement is given up.
pub open spec fn p_assign_tail(inp: Input, s: PState, target: SynTarget) -> (
    Option<Seq<SynStmt>>,
    PState,
) {
    let k = super::state::kind(inp, s);
    if k == TokenKind::Le || k == TokenKind::Eq {
        let (rhs, s1) = super::expr::p_expr(inp, super::state::bump(inp, s), 0);
        let s2 = super::state::skip_if(inp, s1, TokenKind::Semicolon);
        if k == TokenKind::Le {
            (Some(seq![SynStmt::NonBlockingAssign { target, rhs }]), s2)
        } else {
            (Some(seq![SynStmt::BlockingAssign { target, rhs }]), s2)
        }
    } else {
        (None, super::state::past(inp, s, TokenKind::Semicolon))
    }
}

/// Text of a delay literal: a number, and a fraction where a point and a number follow.
pub open spec fn p_delay_text(inp: Input, s: PState) -> (Seq<char>, PState) {
    if super::state::kind(inp, s) != TokenKind::Number {
        (Seq::empty(), s)
    } else {
        let whole = super::state::lexeme(inp, s);
        let s1 = super::state::bump(inp, s);
        if super::state::kind(inp, s1) != TokenKind::Dot {
            (whole, s1)
        } else {
            let s2 = super::state::bump(inp, s1);
            if super::state::kind(inp, s2) == TokenKind::Number {
                (
                    whole.push('.') + super::state::lexeme(inp, s2),
                    super::state::bump(inp, s2),
                )
            } else {
                (whole, s2)
            }
        }
    }
}

/// A delay control `#n`, or none.
pub open spec fn p_delay(inp: Input, s: PState) -> (DelayRational, PState) {
    if super::state::kind(inp, s) != TokenKind::Hash {
        (DelayRational { numer: 0, denom: 1 }, s)
    } else {
        let (text, s1) = p_delay_text(inp, super::state::bump(inp, s));
        (crate::delay_rational::delay_value(text), s1)
    }
}

/// A call of a system task, with the cursor past its name.
pub open spec fn p_system_task(inp: Input, s: PState, name: Seq<char>) -> (
    Option<Seq<SynStmt>>,
    PState,
) {
    let (args, s1) = if super::state::kind(inp, s) == TokenKind::LParen {
        let (args, s1) = super::expr::p_list(inp, super::state::bump(inp, s), TokenKind::RParen);
        (args, super::state::skip_if(inp, s1, TokenKind::RParen))
    } else {
        (Seq::empty(), s)
    };
    (
        Some(seq![SynStmt::SystemTask { name, args }]),
        super::state::skip_if(inp, s1, TokenKind::Semicolon),
    )
}

/// A call of a declared task, with the cursor past its opening parenthesis: the body of the
/// task, with the actuals for its formals.
pub open spec fn p_task_call(
    inp: Input,
    s: PState,
    args: Seq<Seq<char>>,
    body: Seq<SynStmt>,
) -> (Option<Seq<SynStmt>>, PState) {
    let (actuals, s1) = super::expr::p_list(inp, s, TokenKind::RParen);
    let s2 = super::state::skip_if(inp, s1, TokenKind::RParen);
    (
        Some(super::subst::subst_stmts(body, super::state::zip_args(args, actuals))),
        super::state::skip_if(inp, s2, TokenKind::Semicolon),
    )
}

/// A statement that begins with a name.
pub open spec fn p_named_stmt(inp: Input, s: PState) -> (Option<Seq<SynStmt>>, PState) {
    let name = super::state::lexeme(inp, s);
    let s1 = super::state::bump(inp, s);
    if name.len() > 0 && name[0] == '$' {
        p_system_task(inp, s1, name)
    } else {
        match super::state::find_task(s.tasks, name) {
            Some(t) if s.pos + 1 < inp.toks.len() && inp.toks[s.pos + 1].kind
                == TokenKind::LParen => p_task_call(
                inp,
                super::state::bump(inp, s1),
                t.args,
                t.body,
            ),
            _ => {
                let (target, s2) = p_target(inp, s1, name);
                p_assign_tail(inp, s2, target)
            },
        }
    }
}

impl SynBlock {
    /// The block with several statements more, all at one range.
    pub open spec fn push_all(self, stmts: Seq<SynStmt>, range: (u32, u32)) -> SynBlock {
        SynBlock {
            stmts: self.stmts + stmts,
            ranges: self.ranges + Seq::new(stmts.len(), |i: int| range),
        }
    }
}

/// A statement. A call of a task is the statements of its body; what is no statement gives
/// none, and at least one token is passed.
pub open spec fn p_stmt(inp: Input, s: PState) -> (Option<Seq<SynStmt>>, PState)
    decreases super::state::ahead(inp, s), 1int,
    when super::state::ok(inp, s)
{
    match super::state::kind(inp, s) {
        TokenKind::Hash => {
            let (d, s1) = p_delay(inp, s);
            (
                Some(seq![SynStmt::Delay(d)]),
                super::state::skip_if(inp, s1, TokenKind::Semicolon),
            )
        },
        TokenKind::Identifier => p_named_stmt(inp, s),
        TokenKind::If => p_if(inp, s),
        TokenKind::Case => p_case(inp, s, CaseKind::Plain),
        TokenKind::Casez => p_case(inp, s, CaseKind::Z),
        TokenKind::Casex => p_case(inp, s, CaseKind::X),
        TokenKind::For => p_for(inp, s),
        TokenKind::LBrace => {
            let (target, s1) = p_concat_target(inp, s);
            match target {
                Some(t) => p_assign_tail(inp, s1, t),
                None => (None, s1),
            }
        },
        _ => (None, super::state::bump(inp, s)),
    }
}

/// A condition in optional parentheses.
pub open spec fn p_condition(inp: Input, s: PState) -> (SynExpr, PState) {
    let (e, s1) = super::expr::p_expr(
        inp,
        super::state::skip_if(inp, s, TokenKind::LParen),
        0,
    );
    (e, super::state::skip_if(inp, s1, TokenKind::RParen))
}

pub open spec fn p_if(inp: Input, s: PState) -> (Option<Seq<SynStmt>>, PState)
    decreases super::state::ahead(inp, s), 0int,
    when super::state::ok(inp, s) && super::state::kind(inp, s) != TokenKind::Eof
{
    let (cond, s1) = p_condition(inp, super::state::bump(inp, s));
    let s1 = beyond(inp, s, s1);
    let (then_body, s2) = p_block(inp, s1);
    let s2 = super::state::upto(inp, s1, s2);
    if super::state::kind(inp, s2) == TokenKind::Else {
        let (else_body, s3) = p_block(inp, super::state::bump(inp, s2));
        (Some(seq![SynStmt::IfElse { cond, then_body, else_body }]), s3)
    } else {
        (
            Some(
                seq![
                    SynStmt::IfElse { cond, then_body, else_body: super::cst::empty_block() },
                ],
            ),
            s2,
        )
    }
}

pub open spec fn p_case(inp: Input, s: PState, kind: CaseKind) -> (Option<Seq<SynStmt>>, PState)
    decreases super::state::ahead(inp, s), 0int,
    when super::state::ok(inp, s) && super::state::kind(inp, s) != TokenKind::Eof
{
    let (expr, s1) = p_condition(inp, super::state::bump(inp, s));
    let (arms, default, s2) = p_arms(
        inp,
        beyond(inp, s, s1),
        Seq::empty(),
        super::cst::empty_block(),
    );
    (
        Some(seq![SynStmt::Case { kind, expr, arms, default }]),
        super::state::skip_if(inp, s2, TokenKind::Endcase),
    )
}

/// The arms of a case statement up to its end. A later default replaces an earlier one.
pub open spec fn p_arms(inp: Input, s: PState, arms: Seq<SynArm>, default: SynBlock) -> (
    Seq<SynArm>,
    SynBlock,
    PState,
)
    decreases super::state::ahead(inp, s), 3int,
    when super::state::ok(inp, s)
{
    let k = super::state::kind(inp, s);
    if k == TokenKind::Endcase || k == TokenKind::Eof {
        (arms, default, s)
    } else if k == TokenKind::Default {
        let s1 = super::state::skip_if(inp, super::state::bump(inp, s), TokenKind::Colon);
        let (body, s2) = p_block(inp, s1);
        p_arms(inp, super::state::upto(inp, s1, s2), arms, body)
    } else {
        let (value, s1) = super::expr::p_expr(inp, s, 0);
        let s2 = super::state::skip_if(inp, beyond(inp, s, s1), TokenKind::Colon);
        let (body, s3) = p_block(inp, s2);
        p_arms(inp, super::state::upto(inp, s2, s3), arms.push(SynArm { value, body }), default)
    }
}

/// Up to the body of a for statement: variable, initial value, condition, stepped variable
/// and step.
pub open spec fn p_for_head(inp: Input, s: PState) -> (
    Option<(Seq<char>, SynExpr, SynExpr, Seq<char>, SynExpr)>,
    PState,
) {
    let s1 = super::state::skip_if(inp, super::state::bump(inp, s), TokenKind::LParen);
    let (init_var, s2) = super::state::identifier(inp, s1, "expected loop variable"@);
    match init_var {
        None => (None, s2),
        Some(init_var) => {
            let s3 = super::state::skip_if(inp, s2, TokenKind::Eq);
            let (init_val, s4) = super::expr::p_expr(inp, s3, 0);
            let s5 = super::state::skip_if(inp, s4, TokenKind::Semicolon);
            let (cond, s6) = super::expr::p_expr(inp, s5, 0);
            let s7 = super::state::skip_if(inp, s6, TokenKind::Semicolon);
            let (step_var, s8) = super::state::identifier(inp, s7, "expected step variable"@);
            match step_var {
                None => (None, s8),
                Some(step_var) => {
                    let s9 = super::state::skip_if(inp, s8, TokenKind::Eq);
                    let (step_expr, s10) = super::expr::p_expr(inp, s9, 0);
                    (
                        Some((init_var, init_val, cond, step_var, step_expr)),
                        super::state::skip_if(inp, s10, TokenKind::RParen),
                    )
                },
            }
        },
    }
}

pub open spec fn p_for(inp: Input, s: PState) -> (Option<Seq<SynStmt>>, PState)
    decreases super::state::ahead(inp, s), 0int,
    when super::state::ok(inp, s) && super::state::kind(inp, s) != TokenKind::Eof
{
    let (head, s1) = p_for_head(inp, s);
    match head {
        None => (None, s1),
        Some((init_var, init_val, cond, step_var, step_expr)) => {
            let (body, s2) = p_block(inp, beyond(inp, s, s1));
            (
                Some(
                    seq![SynStmt::For { init_var, init_val, cond, step_var, step_expr, body }],
                ),
                s2,
            )
        },
    }
}

/// `begin … end`, or a single statement.
pub open spec fn p_block(inp: Input, s: PState) -> (SynBlock, PState)
    decreases super::state::ahead(inp, s), 2int,
    when super::state::ok(inp, s)
{
    if super::state::kind(inp, s) == TokenKind::Begin {
        let (block, s1) = p_block_items(
            inp,
            super::state::bump(inp, s),
            super::cst::empty_block(),
        );
        (block, super::state::skip_if(inp, s1, TokenKind::End))
    } else {
        let (stmts, s1) = p_stmt(inp, s);
        match stmts {
            Some(stmts) => (
                super::cst::empty_block().push_all(
                    stmts,
                    (super::state::cur_start(inp, s), super::state::last_end(inp, s1)),
                ),
                s1,
            ),
            None => (super::cst::empty_block(), s1),
        }
    }
}

/// Statements up to the end of a block.
pub open spec fn p_block_items(inp: Input, s: PState, so_far: SynBlock) -> (SynBlock, PState)
    decreases super::state::ahead(inp, s), 2int,
    when super::state::ok(inp, s)
{
    let k = super::state::kind(inp, s);
    if k == TokenKind::End || k == TokenKind::Eof {
        (so_far, s)
    } else {
        let (stmts, s1) = p_stmt(inp, s);
        let s2 = beyond(inp, s, s1);
        match stmts {
            Some(stmts) => p_block_items(
                inp,
                s2,
                so_far.push_all(
                    stmts,
                    (super::state::cur_start(inp, s), super::state::last_end(inp, s2)),
                ),
            ),
            None => p_block_items(inp, s2, so_far),
        }
    }
}

/// Entries of a sensitivity list, after those in `so_far`.
pub open spec fn p_edges(inp: Input, s: PState, so_far: Seq<(EdgeKind, Seq<char>)>) -> (
    Seq<(EdgeKind, Seq<char>)>,
    PState,
)
    decreases super::state::ahead(inp, s),
    when super::state::ok(inp, s)
{
    let (edge, s1) = match super::state::kind(inp, s) {
        TokenKind::Posedge => (EdgeKind::Posedge, super::state::bump(inp, s)),
        TokenKind::Negedge => (EdgeKind::Negedge, super::state::bump(inp, s)),
        _ => (EdgeKind::Level, s),
    };
    let (signal, s2) = super::state::identifier(
        inp,
        s1,
        "expected signal in sensitivity list"@,
    );
    match signal {
        None => (so_far, s2),
        Some(signal) => {
            let all = so_far.push((edge, signal));
            let k = super::state::kind(inp, s2);
            if k == TokenKind::Comma || (k == TokenKind::Identifier && super::state::lexeme(inp, s2)
                == "or"@) {
                p_edges(inp, super::state::bump(inp, s2), all)
            } else {
                (all, s2)
            }
        },
    }
}

/// A sensitivity list; without one, and for `@*` and `@(*)`, the implicit one.
pub open spec fn p_sensitivity(inp: Input, s: PState) -> (SynSens, PState) {
    if super::state::kind(inp, s) != TokenKind::At {
        (SynSens::Star, s)
    } else {
        let s1 = super::state::bump(inp, s);
        if super::state::kind(inp, s1) == TokenKind::Star {
            (SynSens::Star, super::state::bump(inp, s1))
        } else if super::state::kind(inp, s1) != TokenKind::LParen {
            (SynSens::Star, s1)
        } else {
            let s2 = super::state::bump(inp, s1);
            if super::state::kind(inp, s2) == TokenKind::Star {
                (
                    SynSens::Star,
                    super::state::skip_if(inp, super::state::bump(inp, s2), TokenKind::RParen),
                )
            } else {
                let (edges, s3) = p_edges(inp, s2, Seq::empty());
                (
                    SynSens::EdgeList(edges),
                    super::state::skip_if(inp, s3, TokenKind::RParen),
                )
            }
        }
    }
}

/// A statement result, by its view.
pub open spec fn stmts_result(r: Option<Vec<CstStmt>>) -> Option<Seq<SynStmt>> {
    match r {
        Some(v) => Some(super::cst::stmts_view(v@)),
        None => None,
    }
}

fn one(stmt: CstStmt) -> (r: Option<Vec<CstStmt>>)
    ensures
        stmts_result(r) == Some(seq![stmt@]),
{
    let mut v: Vec<CstStmt> = Vec::new();
    v.push(stmt);
    assert(super::cst::stmts_view(v@) =~= seq![stmt@]);
    Some(v)
}

impl CstBlock {
    /// Appends several statements at one range.
    pub fn push_all(&mut self, stmts: Vec<CstStmt>, range: (u32, u32))
        ensures
            final(self)@ == old(self)@.push_all(super::cst::stmts_view(stmts@), range),
    {
        let ghost before = self@;
        let ghost model = super::cst::stmts_view(stmts@);
        let ghost all = stmts@;
        assert(before.push_all(model.take(0), range).stmts =~= before.stmts);
        assert(before.push_all(model.take(0), range).ranges =~= before.ranges);
        for stmt in it: stmts
            invariant
                it.seq() == all,
                model == super::cst::stmts_view(all),
                self@ == before.push_all(model.take(it.index() as int), range),
        {
            let ghost i = it.index() as int;
            assert(stmt@ == model[i]);
            let ghost a = before.push_all(model.take(i), range);
            let ghost b = before.push_all(model.take(i + 1), range);
            assert(a.stmts.push(model[i]) =~= b.stmts);
            assert(a.ranges.push(range) =~= b.ranges);
            self.push(stmt, range);
        }
        assert(model.take(model.len() as int) == model);
    }
}

impl<'a> Parser<'a> {
    pub(crate) fn parse_assign_target_suffix(&mut self, reg: String) -> (r: AssignTarget)
        requires
            old(self).wf(),
        ensures
            final(self).after(*old(self)),
            (r@, final(self).st()) == p_target(old(self).input(), old(self).st(), reg@),
    {
        if self.at(TokenKind::LBracket) {
            self.bump();
            let (msb, lsb) = self.parse_index();
            match lsb {
                Some(lsb) => AssignTarget::PartSelect { reg, msb, lsb },
                None => AssignTarget::BitSelect { reg, index: msb },
            }
        } else {
            AssignTarget::Whole(reg)
        }
    }

    pub fn parse_concat_lhs(&mut self) -> (r: Option<AssignTarget>)
        requires
            old(self).wf(),
        ensures
            final(self).after(*old(self)),
            (match r {
                Some(t) => Some(t@),
                None => None,
            }, final(self).st()) == p_concat_target(old(self).input(), old(self).st()),
            super::state::kind(old(self).input(), old(self).st()) == TokenKind::LBrace
                ==> final(self).pos > old(self).pos,
        decreases old(self).tokens@.len() - old(self).pos,
    {
        let ghost inp = self.input();
        if !self.match_kind(TokenKind::LBrace) {
            return None;
        }
        let ghost s1 = self.st();
        let mut parts: Vec<AssignTarget> = Vec::new();
        assert(super::cst::targets_view(parts@) =~= Seq::empty());
        loop
            invariant
                self.after(*old(self)),
                self.pos > old(self).pos,
                old(self).wf(),
                inp == old(self).input(),
                p_concat_target(inp, old(self).st()) == p_target_parts(
                    inp,
                    self.st(),
                    super::cst::targets_view(parts@),
                ),
            decreases super::state::ahead(inp, self.st()),
        {
            let ghost before = super::cst::targets_view(parts@);
            if self.at(TokenKind::RBrace) {
                self.bump();
                return Some(AssignTarget::Concat(parts));
            }
            let part = if self.at(TokenKind::LBrace) {
                match self.parse_concat_lhs() {
                    Some(t) => t,
                    None => {
                        return None;
                    },
                }
            } else if self.at(TokenKind::Identifier) {
                let reg = self.lexeme();
                self.bump();
                self.parse_assign_target_suffix(reg)
            } else {
                self.skip_past(TokenKind::Semicolon);
                return None;
            };
            parts.push(part);
            assert(super::cst::targets_view(parts@) =~= before.push(part@));
            if !self.at(TokenKind::Comma) {
                let _ = self.match_kind(TokenKind::RBrace);
                return Some(AssignTarget::Concat(parts));
            }
            self.bump();
        }
    }

    fn parse_assign_tail(&mut self, target: AssignTarget) -> (r: Option<Vec<CstStmt>>)
        requires
            old(self).wf(),
        ensures
            final(self).after(*old(self)),
            (stmts_result(r), final(self).st()) == p_assign_tail(
                old(self).input(),
                old(self).st(),
                target@,
            ),
    {
        if self.match_kind(TokenKind::Le) {
            let rhs = self.parse_expression(0);
            let _ = self.match_kind(TokenKind::Semicolon);
            one(CstStmt::NonBlockingAssign { target, rhs })
        } else if self.match_kind(TokenKind::Eq) {
            let rhs = self.parse_expression(0);
            let _ = self.match_kind(TokenKind::Semicolon);
            one(CstStmt::BlockingAssign { target, rhs })
        } else {
            self.skip_past(TokenKind::Semicolon);
            None
        }
    }

    fn parse_delay_lexeme_tokens(&mut self) -> (r: String)
        requires
            old(self).wf(),
        ensures
            final(self).after(*old(self)),
            (r@, final(self).st()) == p_delay_text(old(self).input(), old(self).st()),
    {
        if !self.at(TokenKind::Number) {
            let r = String::new();
            assert(r@ =~= Seq::empty());
            return r;
        }
        let mut s = self.lexeme();
        self.bump();
        if self.at(TokenKind::Dot) {
            self.bump();
            if self.at(TokenKind::Number) {
                push_char(&mut s, '.');
                let fraction = self.lexeme();
                s.append(fraction.as_str());
                self.bump();
            }
        }
        s
    }

    pub fn parse_delay_numeric_after_hash(&mut self) -> (r: DelayRational)
        requires
            old(self).wf(),
        ensures
            final(self).after(*old(self)),
            (r, final(self).st()) == p_delay(old(self).input(), old(self).st()),
            super::state::kind(old(self).input(), old(self).st()) == TokenKind::Hash
                ==> final(self).pos > old(self).pos,
    {
        if !self.at(TokenKind::Hash) {
            return DelayRational::zero();
        }
        self.bump();
        let text = self.parse_delay_lexeme_tokens();
        DelayRational::from_delay_lexeme(text.as_str())
    }

    fn parse_system_task(&mut self, name: String) -> (r: Option<Vec<CstStmt>>)
        requires
            old(self).wf(),
        ensures
            final(self).after(*old(self)),
            (stmts_result(r), final(self).st()) == p_system_task(
                old(self).input(),
                old(self).st(),
                name@,
            ),
    {
        let mut args: Vec<Expr> = Vec::new();
        assert(super::cst::exprs_view(args@) =~= Seq::empty());
        if self.match_kind(TokenKind::LParen) {
            args = self.parse_list(TokenKind::RParen);
            let _ = self.match_kind(TokenKind::RParen);
        }
        let _ = self.match_kind(TokenKind::Semicolon);
        one(CstStmt::SystemTask { name, args })
    }

    fn parse_task_call(&mut self, index: usize) -> (r: Option<Vec<CstStmt>>)
        requires
            old(self).wf(),
            index < old(self).tasks@.len(),
        ensures
            final(self).after(*old(self)),
            (stmts_result(r), final(self).st()) == p_task_call(
                old(self).input(),
                old(self).st(),
                old(self).tasks@[index as int]@.args,
                old(self).tasks@[index as int]@.body,
            ),
    {
        let args = super::cst::clone_names(&self.tasks[index].args);
        let body = super::cst::clone_stmts(&self.tasks[index].body);
        let actuals = self.parse_list(TokenKind::RParen);
        let _ = self.match_kind(TokenKind::RParen);
        let _ = self.match_kind(TokenKind::Semicolon);
        let subs = zip_actuals(&args, &actuals);
        Some(super::subst::subst_all_stmts(body.as_slice(), subs.as_slice()))
    }

    fn parse_named_stmt(&mut self) -> (r: Option<Vec<CstStmt>>)
        requires
            old(self).wf(),
            super::state::kind(old(self).input(), old(self).st()) == TokenKind::Identifier,
        ensures
            final(self).after(*old(self)),
            final(self).pos > old(self).pos,
            (stmts_result(r), final(self).st()) == p_named_stmt(old(self).input(), old(self).st()),
    {
        let name = self.lexeme();
        let chars = chars_of(name.as_str());
        if chars.len() > 0 && chars[0] == '$' {
            self.bump();
            return self.parse_system_task(name);
        }
        assert(self.tokens@.len() == self.tokens.len());
        if self.pos + 1 < self.tokens.len() && self.tokens[self.pos + 1].kind
            == TokenKind::LParen {
            if let Some(index) = self.task_index(name.as_str()) {
                let ghost before = self.st().tasks;
                assert(before[index as int] == self.tasks@[index as int]@);
                self.bump();
                self.bump();
                assert(self.st().tasks.len() == before.len());
                assert(self.st().tasks[index as int] == self.tasks@[index as int]@);
                return self.parse_task_call(index);
            }
        }
        self.bump();
        let target = self.parse_assign_target_suffix(name);
        self.parse_assign_tail(target)
    }

    /// A statement; a task call gives the statements of its body.
    pub fn parse_stmt(&mut self) -> (r: Option<Vec<CstStmt>>)
        requires
            old(self).wf(),
        ensures
            final(self).after(*old(self)),
            (stmts_result(r), final(self).st()) == p_stmt(old(self).input(), old(self).st()),
            super::state::kind(old(self).input(), old(self).st()) != TokenKind::Eof
                ==> final(self).pos > old(self).pos,
        decreases old(self).tokens@.len() - old(self).pos, 1int,
    {
        match self.kind() {
            TokenKind::Hash => {
                let ticks = self.parse_delay_numeric_after_hash();
                let _ = self.match_kind(TokenKind::Semicolon);
                one(CstStmt::Delay(ticks))
            },
            TokenKind::Identifier => self.parse_named_stmt(),
            TokenKind::If => self.parse_if(),
            TokenKind::Case => self.parse_case(CaseKind::Plain),
            TokenKind::Casez => self.parse_case(CaseKind::Z),
            TokenKind::Casex => self.parse_case(CaseKind::X),
            TokenKind::For => self.parse_for(),
            TokenKind::LBrace => match self.parse_concat_lhs() {
                Some(target) => self.parse_assign_tail(target),
                None => None,
            },
            _ => {
                self.bump();
                None
            },
        }
    }

    fn parse_condition(&mut self) -> (r: Expr)
        requires
            old(self).wf(),
        ensures
            final(self).after(*old(self)),
            (r@, final(self).st()) == p_condition(old(self).input(), old(self).st()),
    {
        let _ = self.match_kind(TokenKind::LParen);
        let cond = self.parse_expression(0);
        let _ = self.match_kind(TokenKind::RParen);
        cond
    }

    fn parse_if(&mut self) -> (r: Option<Vec<CstStmt>>)
        requires
            old(self).wf(),
            super::state::kind(old(self).input(), old(self).st()) != TokenKind::Eof,
        ensures
            final(self).after(*old(self)),
            final(self).pos > old(self).pos,
            (stmts_result(r), final(self).st()) == p_if(old(self).input(), old(self).st()),
        decreases old(self).tokens@.len() - old(self).pos, 0int,
    {
        self.bump();
        let cond = self.parse_condition();
        let then_body = self.parse_stmt_block();
        let else_body = if self.match_kind(TokenKind::Else) {
            self.parse_stmt_block()
        } else {
            CstBlock::new()
        };
        one(CstStmt::IfElse { cond, then_body, else_body })
    }

    fn parse_case(&mut self, kind: CaseKind) -> (r: Option<Vec<CstStmt>>)
        requires
            old(self).wf(),
            super::state::kind(old(self).input(), old(self).st()) != TokenKind::Eof,
        ensures
            final(self).after(*old(self)),
            final(self).pos > old(self).pos,
            (stmts_result(r), final(self).st()) == p_case(
                old(self).input(),
                old(self).st(),
                kind,
            ),
        decreases old(self).tokens@.len() - old(self).pos, 0int,
    {
        let ghost inp = self.input();
        self.bump();
        let expr = self.parse_condition();
        let ghost s1 = self.st();
        let mut arms: Vec<CaseArm> = Vec::new();
        let mut default = CstBlock::new();
        assert(super::cst::arms_view(arms@) =~= Seq::empty());
        while !self.at(TokenKind::Endcase) && !self.at(TokenKind::Eof)
            invariant
                self.after(*old(self)),
                self.pos >= s1.pos > old(self).pos,
                old(self).wf(),
                inp == old(self).input(),
                p_arms(inp, self.st(), super::cst::arms_view(arms@), default@) == p_arms(
                    inp,
                    s1,
                    Seq::empty(),
                    super::cst::empty_block(),
                ),
            decreases super::state::ahead(inp, self.st()),
        {
            if self.at(TokenKind::Default) {
                self.bump();
                let _ = self.match_kind(TokenKind::Colon);
                default = self.parse_stmt_block();
            } else {
                let ghost before = super::cst::arms_view(arms@);
                let value = self.parse_expression(0);
                let _ = self.match_kind(TokenKind::Colon);
                let body = self.parse_stmt_block();
                let arm = CaseArm { value, body };
                arms.push(arm);
                assert(super::cst::arms_view(arms@) =~= before.push(arm@));
            }
        }
        let _ = self.match_kind(TokenKind::Endcase);
        one(CstStmt::Case { kind, expr, arms, default })
    }

    fn parse_for(&mut self) -> (r: Option<Vec<CstStmt>>)
        requires
            old(self).wf(),
            super::state::kind(old(self).input(), old(self).st()) != TokenKind::Eof,
        ensures
            final(self).after(*old(self)),
            final(self).pos > old(self).pos,
            (stmts_result(r), final(self).st()) == p_for(old(self).input(), old(self).st()),
        decreases old(self).tokens@.len() - old(self).pos, 0int,
    {
        self.bump();
        let _ = self.match_kind(TokenKind::LParen);
        let init_var = match self.expect_identifier("expected loop variable") {
            Some(n) => n,
            None => {
                return None;
            },
        };
        let _ = self.match_kind(TokenKind::Eq);
        let init_val = self.parse_expression(0);
        let _ = self.match_kind(TokenKind::Semicolon);
        let cond = self.parse_expression(0);
        let _ = self.match_kind(TokenKind::Semicolon);
        let step_var = match self.expect_identifier("expected step variable") {
            Some(n) => n,
            None => {
                return None;
            },
        };
        let _ = self.match_kind(TokenKind::Eq);
        let step_expr = self.parse_expression(0);
        let _ = self.match_kind(TokenKind::RParen);
        let body = self.parse_stmt_block();
        one(CstStmt::For { init_var, init_val, cond, step_var, step_expr, body })
    }

    pub fn parse_stmt_block(&mut self) -> (r: CstBlock)
        requires
            old(self).wf(),
        ensures
            final(self).after(*old(self)),
            (r@, final(self).st()) == p_block(old(self).input(), old(self).st()),
        decreases old(self).tokens@.len() - old(self).pos, 2int,
    {
        let ghost inp = self.input();
        let mut block = CstBlock::new();
        if self.match_kind(TokenKind::Begin) {
            let ghost s1 = self.st();
            while !self.at(TokenKind::End) && !self.at(TokenKind::Eof)
                invariant
                    self.after(*old(self)),
                    self.pos >= s1.pos > old(self).pos,
                    old(self).wf(),
                    inp == old(self).input(),
                    p_block_items(inp, self.st(), block@) == p_block_items(
                        inp,
                        s1,
                        super::cst::empty_block(),
                    ),
                decreases super::state::ahead(inp, self.st()),
            {
                let start = self.cur_start();
                if let Some(stmts) = self.parse_stmt() {
                    let end = self.last_end();
                    block.push_all(stmts, (start, end));
                }
            }
            let _ = self.match_kind(TokenKind::End);
        } else {
            let start = self.cur_start();
            if let Some(stmts) = self.parse_stmt() {
                let end = self.last_end();
                block.push_all(stmts, (start, end));
            }
        }
        block
    }

    pub fn parse_sensitivity(&mut self) -> (r: Sensitivity)
        requires
            old(self).wf(),
        ensures
            final(self).after(*old(self)),
            (r@, final(self).st()) == p_sensitivity(old(self).input(), old(self).st()),
    {
        let ghost inp = self.input();
        if !self.match_kind(TokenKind::At) {
            return Sensitivity::Star;
        }
        if self.match_kind(TokenKind::Star) {
            return Sensitivity::Star;
        }
        if !self.match_kind(TokenKind::LParen) {
            return Sensitivity::Star;
        }
        if self.match_kind(TokenKind::Star) {
            let _ = self.match_kind(TokenKind::RParen);
            return Sensitivity::Star;
        }
        let ghost s1 = self.st();
        let mut edges: Vec<SensEdge> = Vec::new();
        assert(super::cst::edges_view(edges@) =~= Seq::empty());
        loop
            invariant_except_break
                p_edges(inp, self.st(), super::cst::edges_view(edges@)) == p_edges(
                    inp,
                    s1,
                    Seq::empty(),
                ),
            invariant
                self.after(*old(self)),
                inp == old(self).input(),
            ensures
                (super::cst::edges_view(edges@), self.st()) == p_edges(inp, s1, Seq::empty()),
            decreases super::state::ahead(inp, self.st()),
        {
            let edge = if self.match_kind(TokenKind::Posedge) {
                EdgeKind::Posedge
            } else if self.match_kind(TokenKind::Negedge) {
                EdgeKind::Negedge
            } else {
                EdgeKind::Level
            };
            match self.expect_identifier("expected signal in sensitivity list") {
                Some(signal) => {
                    let ghost before = super::cst::edges_view(edges@);
                    edges.push(SensEdge { edge, signal });
                    assert(super::cst::edges_view(edges@) =~= before.push((edge, signal@)));
                },
                None => {
                    break;
                },
            }
            let word = self.lexeme();
            if self.at(TokenKind::Comma) || (self.at(TokenKind::Identifier) && str_eq(
                word.as_str(),
                "or",
            )) {
                self.bump();
            } else {
                break;
            }
        }
        let _ = self.match_kind(TokenKind::RParen);
        Sensitivity::EdgeList(edges)
    }
}

} // verus!
