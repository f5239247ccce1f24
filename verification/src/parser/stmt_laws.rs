//! Laws: what statements are parsed to.
//!
//! Each law fixes one form of statement by its tokens; where the form holds other statements,
//! it is given what those are parsed to.
use super::cst::{CaseKind, EdgeKind, SynArm, SynBlock, SynExpr, SynSens, SynStmt, SynTarget};
use super::expr_laws::Word;
use super::state::{Input, PState};
use crate::lexer::TokenKind;
use vstd::prelude::*;

verus! {

/// The words of a target of an assignment.
pub open spec fn aimed(t: SynTarget) -> Seq<Word>
    decreases t, 0int,
{
    match t {
        SynTarget::Whole(reg) => super::expr_laws::named(reg),
        SynTarget::BitSelect { reg, index } => super::expr_laws::named(reg)
            + super::expr_laws::mark(TokenKind::LBracket) + super::expr_laws::written(index, 0)
            + super::expr_laws::mark(TokenKind::RBracket),
        SynTarget::PartSelect { reg, msb, lsb } => super::expr_laws::named(reg)
            + super::expr_laws::mark(TokenKind::LBracket) + super::expr_laws::written(msb, 0)
            + super::expr_laws::mark(TokenKind::Colon) + super::expr_laws::written(lsb, 0)
            + super::expr_laws::mark(TokenKind::RBracket),
        SynTarget::Concat(parts) => super::expr_laws::mark(TokenKind::LBrace) + aimed_from(parts, 0)
            + super::expr_laws::mark(TokenKind::RBrace),
    }
}

/// The words of the targets from `k` on, with commas between all of them.
pub open spec fn aimed_from(ts: Seq<SynTarget>, k: int) -> Seq<Word>
    decreases ts, ts.len() - k,
{
    if 0 <= k < ts.len() {
        (if k > 0 {
            super::expr_laws::mark(TokenKind::Comma)
        } else {
            Seq::empty()
        }) + aimed(ts[k]) + aimed_from(ts, k + 1)
    } else {
        Seq::empty()
    }
}

/// The indices of the target hold no prefix plus.
pub open spec fn aimable(t: SynTarget) -> bool
    decreases t,
{
    match t {
        SynTarget::Whole(_) => true,
        SynTarget::BitSelect { index, .. } => super::expr_laws::writable(index),
        SynTarget::PartSelect { msb, lsb, .. } => super::expr_laws::writable(msb)
            && super::expr_laws::writable(lsb),
        SynTarget::Concat(parts) => forall|i: int|
            0 <= i < parts.len() ==> aimable(#[trigger] parts[i]),
    }
}

proof fn lemma_name(inp: Input, i: int, name: Seq<char>)
    requires
        super::expr_laws::spells(inp, i, super::expr_laws::named(name)),
    ensures
        inp.toks[i].kind == TokenKind::Identifier,
        inp.toks[i].lexeme == name,
{
    reveal(super::expr_laws::reads);
    assert(super::expr_laws::named(name)[0].kind == TokenKind::Identifier);
}

/// A name with its select, if any.
proof fn lemma_simple_target(inp: Input, s: PState, t: SynTarget)
    requires
        super::state::ok(inp, s),
        aimable(t),
        !(t is Concat),
        super::expr_laws::spells(inp, s.pos, aimed(t)),
        inp.toks[s.pos + aimed(t).len()].kind != TokenKind::LBracket,
    ensures
        inp.toks[s.pos].kind == TokenKind::Identifier,
        inp.toks[s.pos].lexeme == target_name(t),
        super::stmt::p_target(inp, super::expr_laws::moved(s, 1), target_name(t)) == (
            t,
            super::expr_laws::moved(s, aimed(t).len()),
        ),
{
    let (open, close, colon) = (
        super::expr_laws::mark(TokenKind::LBracket),
        super::expr_laws::mark(TokenKind::RBracket),
        super::expr_laws::mark(TokenKind::Colon),
    );
    let s1 = super::expr_laws::moved(s, 1);
    let s2 = super::expr_laws::moved(s, 2);
    match t {
        SynTarget::Whole(reg) => {
            lemma_name(inp, s.pos, reg);
        },
        SynTarget::BitSelect { reg, index } => {
            let w = super::expr_laws::written(index, 0);
            super::expr_laws::lemma_split(
                inp,
                s.pos,
                super::expr_laws::named(reg) + open + w,
                close,
            );
            super::expr_laws::lemma_split(inp, s.pos, super::expr_laws::named(reg) + open, w);
            super::expr_laws::lemma_split(inp, s.pos, super::expr_laws::named(reg), open);
            lemma_name(inp, s.pos, reg);
            super::expr_laws::lemma_mark(inp, s.pos + 1, TokenKind::LBracket);
            super::expr_laws::lemma_mark(inp, s.pos + 2 + w.len(), TokenKind::RBracket);
            super::expr_laws::lemma_enclosed(inp, s2, index);
            let s3 = super::expr_laws::moved(s2, w.len());
            assert(super::state::bump(inp, s1) == s2);
            assert(super::state::upto(inp, s2, s3) == s3);
            assert(super::state::skip_if(inp, s3, TokenKind::RBracket)
                == super::expr_laws::moved(s, aimed(t).len()));
        },
        SynTarget::PartSelect { reg, msb, lsb } => {
            let (w, v) = (super::expr_laws::written(msb, 0), super::expr_laws::written(lsb, 0));
            let name = super::expr_laws::named(reg);
            super::expr_laws::lemma_split(inp, s.pos, name + open + w + colon + v, close);
            super::expr_laws::lemma_split(inp, s.pos, name + open + w + colon, v);
            super::expr_laws::lemma_split(inp, s.pos, name + open + w, colon);
            super::expr_laws::lemma_split(inp, s.pos, name + open, w);
            super::expr_laws::lemma_split(inp, s.pos, name, open);
            lemma_name(inp, s.pos, reg);
            super::expr_laws::lemma_mark(inp, s.pos + 1, TokenKind::LBracket);
            super::expr_laws::lemma_mark(inp, s.pos + 2 + w.len(), TokenKind::Colon);
            super::expr_laws::lemma_mark(inp, s.pos + 3 + w.len() + v.len(), TokenKind::RBracket);
            super::expr_laws::lemma_enclosed(inp, s2, msb);
            let s3 = super::expr_laws::moved(s2, w.len());
            let s4 = super::expr_laws::moved(s3, 1);
            super::expr_laws::lemma_enclosed(inp, s4, lsb);
            let s5 = super::expr_laws::moved(s4, v.len());
            assert(super::state::bump(inp, s1) == s2);
            assert(super::state::upto(inp, s2, s3) == s3);
            assert(super::state::bump(inp, s3) == s4);
            assert(super::state::skip_if(inp, s5, TokenKind::RBracket)
                == super::expr_laws::moved(s, aimed(t).len()));
        },
        _ => {},
    }
}

/// The signal that a simple target belongs to.
pub open spec fn target_name(t: SynTarget) -> Seq<char> {
    match t {
        SynTarget::Whole(reg) => reg,
        SynTarget::BitSelect { reg, .. } => reg,
        SynTarget::PartSelect { reg, .. } => reg,
        SynTarget::Concat(_) => Seq::empty(),
    }
}

/// A concatenation of targets.
proof fn lemma_concat_target(inp: Input, s: PState, t: SynTarget)
    requires
        super::state::ok(inp, s),
        aimable(t),
        t is Concat,
        super::expr_laws::spells(inp, s.pos, aimed(t)),
    ensures
        inp.toks[s.pos].kind == TokenKind::LBrace,
        super::stmt::p_concat_target(inp, s) == (
            Some(t),
            super::expr_laws::moved(s, aimed(t).len()),
        ),
    decreases t, 0int,
{
    let parts = t->Concat_0;
    let w = aimed_from(parts, 0);
    super::expr_laws::lemma_split(
        inp,
        s.pos,
        super::expr_laws::mark(TokenKind::LBrace) + w,
        super::expr_laws::mark(TokenKind::RBrace),
    );
    super::expr_laws::lemma_split(inp, s.pos, super::expr_laws::mark(TokenKind::LBrace), w);
    super::expr_laws::lemma_mark(inp, s.pos, TokenKind::LBrace);
    super::expr_laws::lemma_mark(inp, s.pos + 1 + w.len(), TokenKind::RBrace);
    let s1 = super::expr_laws::moved(s, 1);
    assert(super::state::bump(inp, s) == s1);
    if parts.len() == 0 {
        assert(parts =~= Seq::empty());
        assert(super::state::bump(inp, s1) == super::expr_laws::moved(s, aimed(t).len()));
    } else {
        assert(parts.take(0) =~= Seq::empty());
        assert(w =~= part_words(parts, 0));
        lemma_target_parts(inp, s1, parts, 0);
        reveal(parts_of);
        assert(super::expr_laws::moved(s1, w.len() + 1) == super::expr_laws::moved(
            s,
            aimed(t).len(),
        ));
    }
}

/// The parts of a concatenation of targets from here on, after those so far.
#[verifier::opaque]
spec fn parts_of(inp: Input, s: PState, so_far: Seq<SynTarget>) -> (Option<SynTarget>, PState) {
    super::stmt::p_target_parts(inp, s, so_far)
}

/// One part of a concatenation of targets, with a comma or the closing brace behind it.
proof fn lemma_target_part(inp: Input, s: PState, so_far: Seq<SynTarget>, t: SynTarget)
    requires
        super::state::ok(inp, s),
        aimable(t),
        super::expr_laws::spells(inp, s.pos, aimed(t)),
        s.pos + aimed(t).len() + 1 < inp.toks.len(),
    ensures
        ({
            let s1 = super::expr_laws::moved(s, aimed(t).len());
            let s2 = super::expr_laws::moved(s, aimed(t).len() + 1);
            &&& inp.toks[s1.pos].kind == TokenKind::Comma ==> parts_of(
                inp,
                s,
                so_far,
            ) == parts_of(inp, s2, so_far.push(t))
            &&& inp.toks[s1.pos].kind == TokenKind::RBrace ==> parts_of(
                inp,
                s,
                so_far,
            ) == (Some(SynTarget::Concat(so_far.push(t))), s2)
        }),
    decreases t, 1int,
{
    let s1 = super::expr_laws::moved(s, aimed(t).len());
    let s2 = super::expr_laws::moved(s, aimed(t).len() + 1);
    let k = inp.toks[s1.pos].kind;
    reveal(parts_of);
    if k == TokenKind::Comma || k == TokenKind::RBrace {
        if t is Concat {
            lemma_concat_target(inp, s, t);
        } else {
            lemma_simple_target(inp, s, t);
            assert(super::state::bump(inp, s) == super::expr_laws::moved(s, 1));
        }
        assert(super::state::upto(inp, s, s1) == s1);
        assert(super::state::bump(inp, s1) == s2);
    }
}

/// The targets from `k` on, after those before them, with the closing brace.
proof fn lemma_target_parts(inp: Input, s: PState, ts: Seq<SynTarget>, k: int)
    requires
        super::state::ok(inp, s),
        forall|i: int| 0 <= i < ts.len() ==> aimable(#[trigger] ts[i]),
        0 <= k < ts.len(),
        super::expr_laws::spells(inp, s.pos, part_words(ts, k)),
        inp.toks[s.pos + part_words(ts, k).len()].kind == TokenKind::RBrace,
        s.pos + part_words(ts, k).len() + 1 < inp.toks.len(),
    ensures
        parts_of(inp, s, ts.take(k)) == (
            Some(SynTarget::Concat(ts)),
            super::expr_laws::moved(s, part_words(ts, k).len() + 1),
        ),
    decreases ts, ts.len() - k,
{
    let comma = super::expr_laws::mark(TokenKind::Comma);
    let w = aimed(ts[k]);
    super::expr_laws::lemma_split(inp, s.pos, w, aimed_from(ts, k + 1));
    assert(decreases_to!(ts => ts[k]));
    assert(ts.take(k).push(ts[k]) =~= ts.take(k + 1));
    if k + 1 < ts.len() {
        let rest = part_words(ts, k + 1);
        assert(aimed_from(ts, k + 1) =~= comma + rest);
        super::expr_laws::lemma_split(inp, s.pos + w.len(), comma, rest);
        super::expr_laws::lemma_mark(inp, s.pos + w.len(), TokenKind::Comma);
        lemma_target_part(inp, s, ts.take(k), ts[k]);
        let s2 = super::expr_laws::moved(s, w.len() + 1);
        lemma_target_parts(inp, s2, ts, k + 1);
        assert(super::expr_laws::moved(s2, rest.len() + 1) == super::expr_laws::moved(
            s,
            part_words(ts, k).len() + 1,
        ));
    } else {
        assert(ts.take(k + 1) =~= ts);
        lemma_target_part(inp, s, ts.take(k), ts[k]);
    }
}

/// The words of the targets from `k` on without a comma before them.
spec fn part_words(ts: Seq<SynTarget>, k: int) -> Seq<Word> {
    aimed(ts[k]) + aimed_from(ts, k + 1)
}

/// An assignment to a signal, a select of one, or a concatenation of them: blocking with
/// `=`, and non-blocking with `<=`.
pub proof fn law_assignment(inp: Input, s: PState, t: SynTarget, rhs: SynExpr, later: bool)
    requires
        super::state::ok(inp, s),
        aimable(t),
        super::expr_laws::writable(rhs),
        !(target_name(t).len() > 0 && target_name(t)[0] == '$'),
        super::expr_laws::spells(inp, s.pos, assigned(t, rhs, later)),
    ensures
        super::stmt::p_stmt(inp, s) == (
            Some(
                seq![
                    if later {
                        SynStmt::NonBlockingAssign { target: t, rhs }
                    } else {
                        SynStmt::BlockingAssign { target: t, rhs }
                    },
                ],
            ),
            super::expr_laws::moved(s, assigned(t, rhs, later).len()),
        ),
{
    let k = if later {
        TokenKind::Le
    } else {
        TokenKind::Eq
    };
    let (w, v) = (aimed(t), super::expr_laws::written(rhs, 0));
    let (eq, end) = (super::expr_laws::mark(k), super::expr_laws::mark(TokenKind::Semicolon));
    super::expr_laws::lemma_split(inp, s.pos, w + eq + v, end);
    super::expr_laws::lemma_split(inp, s.pos, w + eq, v);
    super::expr_laws::lemma_split(inp, s.pos, w, eq);
    super::expr_laws::lemma_mark(inp, s.pos + w.len(), k);
    super::expr_laws::lemma_mark(inp, s.pos + w.len() + 1 + v.len(), TokenKind::Semicolon);
    let s1 = super::expr_laws::moved(s, w.len());
    let s2 = super::expr_laws::moved(s1, 1);
    let s3 = super::expr_laws::moved(s2, v.len());
    super::expr_laws::lemma_enclosed(inp, s2, rhs);
    assert(super::state::bump(inp, s1) == s2);
    assert(super::state::skip_if(inp, s3, TokenKind::Semicolon) == super::expr_laws::moved(
        s,
        assigned(t, rhs, later).len(),
    ));
    if t is Concat {
        lemma_concat_target(inp, s, t);
    } else {
        lemma_simple_target(inp, s, t);
        assert(super::state::bump(inp, s) == super::expr_laws::moved(s, 1));
        assert(inp.toks[s.pos + 1].kind != TokenKind::LParen) by {
            lemma_behind_name(inp, s.pos, t, k);
        }
    }
}

/// The words of an assignment.
pub open spec fn assigned(t: SynTarget, rhs: SynExpr, later: bool) -> Seq<Word> {
    aimed(t) + super::expr_laws::mark(
        if later {
            TokenKind::Le
        } else {
            TokenKind::Eq
        },
    ) + super::expr_laws::written(rhs, 0) + super::expr_laws::mark(TokenKind::Semicolon)
}

proof fn lemma_behind_name(inp: Input, i: int, t: SynTarget, k: TokenKind)
    requires
        !(t is Concat),
        super::expr_laws::spells(inp, i, aimed(t)),
        inp.toks[i + aimed(t).len()].kind == k,
        k == TokenKind::Eq || k == TokenKind::Le,
    ensures
        inp.toks[i + 1].kind != TokenKind::LParen,
{
    reveal(super::expr_laws::reads);
    if !(t is Whole) {
        assert(aimed(t)[1].kind == TokenKind::LBracket);
    }
}

/// A condition in parentheses after a keyword.
pub open spec fn conditioned(k: TokenKind, cond: SynExpr) -> Seq<Word> {
    super::expr_laws::mark(k) + super::expr_laws::mark(TokenKind::LParen)
        + super::expr_laws::written(cond, 0) + super::expr_laws::mark(TokenKind::RParen)
}

proof fn lemma_condition(inp: Input, s: PState, k: TokenKind, cond: SynExpr)
    requires
        super::state::ok(inp, s),
        super::expr_laws::writable(cond),
        super::expr_laws::spells(inp, s.pos, conditioned(k, cond)),
    ensures
        inp.toks[s.pos].kind == k,
        conditioned(k, cond).len() > 1,
        super::stmt::p_condition(inp, super::state::bump(inp, s)) == (
            cond,
            super::expr_laws::moved(s, conditioned(k, cond).len()),
        ),
{
    let w = super::expr_laws::written(cond, 0);
    let (key, open, close) = (
        super::expr_laws::mark(k),
        super::expr_laws::mark(TokenKind::LParen),
        super::expr_laws::mark(TokenKind::RParen),
    );
    super::expr_laws::lemma_split(inp, s.pos, key + open + w, close);
    super::expr_laws::lemma_split(inp, s.pos, key + open, w);
    super::expr_laws::lemma_split(inp, s.pos, key, open);
    super::expr_laws::lemma_mark(inp, s.pos, k);
    super::expr_laws::lemma_mark(inp, s.pos + 1, TokenKind::LParen);
    super::expr_laws::lemma_mark(inp, s.pos + 2 + w.len(), TokenKind::RParen);
    let s1 = super::expr_laws::moved(s, 1);
    let s2 = super::expr_laws::moved(s, 2);
    let s3 = super::expr_laws::moved(s2, w.len());
    assert(super::state::bump(inp, s) == s1);
    assert(super::state::skip_if(inp, s1, TokenKind::LParen) == s2);
    super::expr_laws::lemma_enclosed(inp, s2, cond);
    assert(super::state::skip_if(inp, s3, TokenKind::RParen) == super::expr_laws::moved(
        s,
        w.len() + 3,
    ));
}

/// A conditional statement: the first body is what follows the condition, the second what
/// follows `else`, and there is none without that.
pub proof fn law_if(inp: Input, s: PState, cond: SynExpr, body: SynBlock, t: PState)
    requires
        super::state::ok(inp, s),
        super::expr_laws::writable(cond),
        super::expr_laws::spells(inp, s.pos, conditioned(TokenKind::If, cond)),
        super::stmt::p_block(
            inp,
            super::expr_laws::moved(s, conditioned(TokenKind::If, cond).len()),
        ) == (body, t),
        s.pos + conditioned(TokenKind::If, cond).len() <= t.pos < inp.toks.len(),
    ensures
        inp.toks[t.pos].kind == TokenKind::Else ==> ({
            let (other, end) = super::stmt::p_block(inp, super::expr_laws::moved(t, 1));
            super::stmt::p_stmt(inp, s) == (
                Some(seq![SynStmt::IfElse { cond, then_body: body, else_body: other }]),
                end,
            )
        }),
        inp.toks[t.pos].kind != TokenKind::Else ==> super::stmt::p_stmt(inp, s) == (
            Some(
                seq![
                    SynStmt::IfElse {
                        cond,
                        then_body: body,
                        else_body: SynBlock { stmts: Seq::empty(), ranges: Seq::empty() },
                    },
                ],
            ),
            t,
        ),
{
    lemma_condition(inp, s, TokenKind::If, cond);
    let s1 = super::expr_laws::moved(s, conditioned(TokenKind::If, cond).len());
    assert(super::stmt::beyond(inp, s, s1) == s1);
    assert(super::state::upto(inp, s1, t) == t);
    if inp.toks[t.pos].kind == TokenKind::Else {
        assert(super::state::bump(inp, t) == super::expr_laws::moved(t, 1));
    }
}

/// The kind of a case statement by its keyword.
pub open spec fn case_word(kind: CaseKind) -> TokenKind {
    match kind {
        CaseKind::Plain => TokenKind::Case,
        CaseKind::Z => TokenKind::Casez,
        CaseKind::X => TokenKind::Casex,
    }
}

/// A case statement holds its arms and its default up to `endcase`.
pub proof fn law_case(
    inp: Input,
    s: PState,
    kind: CaseKind,
    expr: SynExpr,
    arms: Seq<SynArm>,
    default: SynBlock,
    t: PState,
)
    requires
        super::state::ok(inp, s),
        super::expr_laws::writable(expr),
        super::expr_laws::spells(inp, s.pos, conditioned(case_word(kind), expr)),
        super::stmt::p_arms(
            inp,
            super::expr_laws::moved(s, conditioned(case_word(kind), expr).len()),
            Seq::empty(),
            (SynBlock { stmts: Seq::empty(), ranges: Seq::empty() }),
        ) == (arms, default, t),
        0 <= t.pos < inp.toks.len(),
        inp.toks[t.pos].kind == TokenKind::Endcase,
    ensures
        super::stmt::p_stmt(inp, s) == (
            Some(seq![SynStmt::Case { kind, expr, arms, default }]),
            super::expr_laws::moved(t, 1),
        ),
{
    lemma_condition(inp, s, case_word(kind), expr);
    let s1 = super::expr_laws::moved(s, conditioned(case_word(kind), expr).len());
    assert(super::stmt::beyond(inp, s, s1) == s1);
    assert(super::state::skip_if(inp, t, TokenKind::Endcase) == super::expr_laws::moved(t, 1));
}

/// An arm of a case statement: a value, a colon and a body, which comes after the arms
/// before it; a default takes the place of an earlier one; `endcase` ends them.
pub proof fn law_case_arm(
    inp: Input,
    s: PState,
    value: SynExpr,
    arms: Seq<SynArm>,
    default: SynBlock,
    body: SynBlock,
    t: PState,
)
    requires
        super::state::ok(inp, s),
        super::expr_laws::writable(value),
        t.pos < inp.toks.len(),
    ensures
        ({
            let w = super::expr_laws::written(value, 0) + super::expr_laws::mark(TokenKind::Colon);
            let s1 = super::expr_laws::moved(s, w.len());
            super::expr_laws::spells(inp, s.pos, w) && s1.pos <= t.pos && super::stmt::p_block(
                inp,
                s1,
            ) == (body, t) ==> super::stmt::p_arms(inp, s, arms, default) == super::stmt::p_arms(
                inp,
                t,
                arms.push(SynArm { value, body }),
                default,
            )
        }),
        ({
            let w = super::expr_laws::mark(TokenKind::Default) + super::expr_laws::mark(
                TokenKind::Colon,
            );
            let s1 = super::expr_laws::moved(s, 2);
            super::expr_laws::spells(inp, s.pos, w) && s1.pos <= t.pos && super::stmt::p_block(
                inp,
                s1,
            ) == (body, t) ==> super::stmt::p_arms(inp, s, arms, default) == super::stmt::p_arms(
                inp,
                t,
                arms,
                body,
            )
        }),
        inp.toks[s.pos].kind == TokenKind::Endcase ==> super::stmt::p_arms(inp, s, arms, default)
            == (arms, default, s),
{
    let colon = super::expr_laws::mark(TokenKind::Colon);
    let v = super::expr_laws::written(value, 0);
    let w = v + colon;
    let s1 = super::expr_laws::moved(s, w.len());
    if super::expr_laws::spells(inp, s.pos, w) && s1.pos <= t.pos && super::stmt::p_block(inp, s1)
        == (body, t) {
        super::expr_laws::lemma_split(inp, s.pos, v, colon);
        super::expr_laws::lemma_mark(inp, s.pos + v.len(), TokenKind::Colon);
        super::expr_laws::lemma_enclosed(inp, s, value);
        super::expr_laws::lemma_opens(inp, s, value);
        let s0 = super::expr_laws::moved(s, v.len());
        assert(super::stmt::beyond(inp, s, s0) == s0);
        assert(super::state::skip_if(inp, s0, TokenKind::Colon) == s1);
        assert(super::state::upto(inp, s1, t) == t);
    }
    let d = super::expr_laws::mark(TokenKind::Default) + colon;
    let s2 = super::expr_laws::moved(s, 2);
    if super::expr_laws::spells(inp, s.pos, d) && s2.pos <= t.pos && super::stmt::p_block(inp, s2)
        == (body, t) {
        super::expr_laws::lemma_split(
            inp,
            s.pos,
            super::expr_laws::mark(TokenKind::Default),
            colon,
        );
        super::expr_laws::lemma_mark(inp, s.pos, TokenKind::Default);
        super::expr_laws::lemma_mark(inp, s.pos + 1, TokenKind::Colon);
        assert(super::state::bump(inp, s) == super::expr_laws::moved(s, 1));
        assert(super::state::skip_if(inp, super::expr_laws::moved(s, 1), TokenKind::Colon) == s2);
        assert(super::state::upto(inp, s2, t) == t);
    }
}

/// A body is one statement, or the statements between `begin` and `end`, each with the
/// extent of its tokens.
pub proof fn law_body(inp: Input, s: PState, so_far: SynBlock, stmts: Seq<SynStmt>, t: PState)
    requires
        super::state::ok(inp, s),
        s.pos < t.pos < inp.toks.len(),
    ensures
        ({
            let extent = (inp.toks[s.pos].offset as u32, inp.toks[t.pos - 1].end as u32);
            let plain = inp.toks[s.pos].kind != TokenKind::Begin && inp.toks[s.pos].kind
                != TokenKind::End && inp.toks[s.pos].kind != TokenKind::Eof;
            &&& plain && super::stmt::p_stmt(inp, s) == (Some(stmts), t) ==> super::stmt::p_block(
                inp,
                s,
            ) == (
                SynBlock { stmts, ranges: Seq::new(stmts.len(), |i: int| extent) },
                t,
            )
            &&& plain && super::stmt::p_stmt(inp, s) == (Some(stmts), t)
                ==> super::stmt::p_block_items(inp, s, so_far) == super::stmt::p_block_items(
                inp,
                t,
                SynBlock {
                    stmts: so_far.stmts + stmts,
                    ranges: so_far.ranges + Seq::new(stmts.len(), |i: int| extent),
                },
            )
        }),
        inp.toks[s.pos].kind == TokenKind::End ==> super::stmt::p_block_items(inp, s, so_far) == (
            so_far,
            s,
        ),
        inp.toks[s.pos].kind == TokenKind::Begin && inp.toks[t.pos].kind == TokenKind::End
            && super::stmt::p_block_items(
            inp,
            super::expr_laws::moved(s, 1),
            (SynBlock { stmts: Seq::empty(), ranges: Seq::empty() }),
        ) == (so_far, t) ==> super::stmt::p_block(inp, s) == (
            so_far,
            super::expr_laws::moved(t, 1),
        ),
{
    if super::stmt::p_stmt(inp, s) == (Some(stmts), t) {
        let extent = (inp.toks[s.pos].offset as u32, inp.toks[t.pos - 1].end as u32);
        assert(super::stmt::beyond(inp, s, t) == t);
        assert(Seq::<SynStmt>::empty() + stmts =~= stmts);
        assert(Seq::<(u32, u32)>::empty() + Seq::new(stmts.len(), |i: int| extent) =~= Seq::new(
            stmts.len(),
            |i: int| extent,
        ));
    }
    if inp.toks[s.pos].kind == TokenKind::Begin {
        assert(super::state::bump(inp, s) == super::expr_laws::moved(s, 1));
    }
    if inp.toks[t.pos].kind == TokenKind::End {
        assert(super::state::skip_if(inp, t, TokenKind::End) == super::expr_laws::moved(t, 1));
    }
}

/// The words of the head of a loop: start, condition and step.
pub open spec fn loop_head(
    var: Seq<char>,
    start: SynExpr,
    cond: SynExpr,
    step: Seq<char>,
    next: SynExpr,
) -> Seq<Word> {
    super::expr_laws::mark(TokenKind::For) + super::expr_laws::mark(TokenKind::LParen)
        + super::expr_laws::named(var) + super::expr_laws::mark(TokenKind::Eq)
        + super::expr_laws::written(start, 0) + super::expr_laws::mark(TokenKind::Semicolon)
        + super::expr_laws::written(cond, 0) + super::expr_laws::mark(TokenKind::Semicolon)
        + super::expr_laws::named(step) + super::expr_laws::mark(TokenKind::Eq)
        + super::expr_laws::written(next, 0) + super::expr_laws::mark(TokenKind::RParen)
}

/// A loop: its variable and start value, its condition, its step, and the body behind them.
pub proof fn law_for(
    inp: Input,
    s: PState,
    var: Seq<char>,
    start: SynExpr,
    cond: SynExpr,
    step: Seq<char>,
    next: SynExpr,
    body: SynBlock,
    t: PState,
)
    requires
        super::state::ok(inp, s),
        super::expr_laws::writable(start),
        super::expr_laws::writable(cond),
        super::expr_laws::writable(next),
        super::expr_laws::spells(inp, s.pos, loop_head(var, start, cond, step, next)),
        super::stmt::p_block(
            inp,
            super::expr_laws::moved(s, loop_head(var, start, cond, step, next).len()),
        ) == (body, t),
    ensures
        super::stmt::p_stmt(inp, s) == (
            Some(
                seq![
                    SynStmt::For {
                        init_var: var,
                        init_val: start,
                        cond,
                        step_var: step,
                        step_expr: next,
                        body,
                    },
                ],
            ),
            t,
        ),
{
    let (ws, wc, wn) = (
        super::expr_laws::written(start, 0),
        super::expr_laws::written(cond, 0),
        super::expr_laws::written(next, 0),
    );
    let (open, close) = (
        super::expr_laws::mark(TokenKind::LParen),
        super::expr_laws::mark(TokenKind::RParen),
    );
    let (eq, semi) = (
        super::expr_laws::mark(TokenKind::Eq),
        super::expr_laws::mark(TokenKind::Semicolon),
    );
    let (key, a, b) = (
        super::expr_laws::mark(TokenKind::For),
        super::expr_laws::named(var),
        super::expr_laws::named(step),
    );
    let h3 = key + open + a + eq;
    let h5 = h3 + ws + semi;
    let h7 = h5 + wc + semi;
    let h9 = h7 + b + eq;
    super::expr_laws::lemma_split(inp, s.pos, h9 + wn, close);
    super::expr_laws::lemma_split(inp, s.pos, h9, wn);
    super::expr_laws::lemma_split(inp, s.pos, h7 + b, eq);
    super::expr_laws::lemma_split(inp, s.pos, h7, b);
    super::expr_laws::lemma_split(inp, s.pos, h5 + wc, semi);
    super::expr_laws::lemma_split(inp, s.pos, h5, wc);
    super::expr_laws::lemma_split(inp, s.pos, h3 + ws, semi);
    super::expr_laws::lemma_split(inp, s.pos, h3, ws);
    super::expr_laws::lemma_split(inp, s.pos, key + open + a, eq);
    super::expr_laws::lemma_split(inp, s.pos, key + open, a);
    super::expr_laws::lemma_split(inp, s.pos, key, open);
    let s1 = super::expr_laws::moved(s, 1);
    let s2 = super::expr_laws::moved(s, 2);
    let s3 = super::expr_laws::moved(s, 3);
    let s4 = super::expr_laws::moved(s, 4);
    let s5 = super::expr_laws::moved(s4, ws.len());
    let s6 = super::expr_laws::moved(s5, 1);
    let s7 = super::expr_laws::moved(s6, wc.len());
    let s8 = super::expr_laws::moved(s7, 1);
    let s9 = super::expr_laws::moved(s8, 1);
    let s10 = super::expr_laws::moved(s9, 1);
    let s11 = super::expr_laws::moved(s10, wn.len());
    let s12 = super::expr_laws::moved(s11, 1);
    super::expr_laws::lemma_mark(inp, s.pos, TokenKind::For);
    super::expr_laws::lemma_mark(inp, s1.pos, TokenKind::LParen);
    lemma_name(inp, s2.pos, var);
    super::expr_laws::lemma_mark(inp, s3.pos, TokenKind::Eq);
    super::expr_laws::lemma_mark(inp, s5.pos, TokenKind::Semicolon);
    super::expr_laws::lemma_mark(inp, s7.pos, TokenKind::Semicolon);
    lemma_name(inp, s8.pos, step);
    super::expr_laws::lemma_mark(inp, s9.pos, TokenKind::Eq);
    super::expr_laws::lemma_mark(inp, s11.pos, TokenKind::RParen);
    super::expr_laws::lemma_enclosed(inp, s4, start);
    super::expr_laws::lemma_enclosed(inp, s6, cond);
    super::expr_laws::lemma_enclosed(inp, s10, next);
    assert(super::state::bump(inp, s) == s1);
    assert(super::state::skip_if(inp, s1, TokenKind::LParen) == s2);
    assert(super::state::bump(inp, s2) == s3);
    assert(super::state::skip_if(inp, s3, TokenKind::Eq) == s4);
    assert(super::state::skip_if(inp, s5, TokenKind::Semicolon) == s6);
    assert(super::state::skip_if(inp, s7, TokenKind::Semicolon) == s8);
    assert(super::state::bump(inp, s8) == s9);
    assert(super::state::skip_if(inp, s9, TokenKind::Eq) == s10);
    assert(super::state::skip_if(inp, s11, TokenKind::RParen) == s12);
    assert(super::stmt::p_for_head(inp, s) == (Some((var, start, cond, step, next)), s12));
    assert(s12 == super::expr_laws::moved(s, loop_head(var, start, cond, step, next).len()));
    assert(super::stmt::beyond(inp, s, s12) == s12);
}

/// The words of a list of arguments, in parentheses.
pub open spec fn arguments(args: Seq<SynExpr>) -> Seq<Word> {
    super::expr_laws::mark(TokenKind::LParen) + super::expr_laws::listed(args, 0)
        + super::expr_laws::mark(TokenKind::RParen)
}

proof fn lemma_arguments(inp: Input, s: PState, args: Seq<SynExpr>)
    requires
        super::state::ok(inp, s),
        forall|i: int| 0 <= i < args.len() ==> super::expr_laws::writable(#[trigger] args[i]),
        super::expr_laws::spells(inp, s.pos, arguments(args)),
    ensures
        inp.toks[s.pos].kind == TokenKind::LParen,
        super::expr_laws::list_of(inp, super::expr_laws::moved(s, 1), TokenKind::RParen).0 == args,
        super::state::skip_if(
            inp,
            super::expr_laws::list_of(inp, super::expr_laws::moved(s, 1), TokenKind::RParen).1,
            TokenKind::RParen,
        ) == super::expr_laws::moved(s, arguments(args).len()),
        super::expr_laws::list_of(inp, super::expr_laws::moved(s, 1), TokenKind::RParen).1
            == super::expr_laws::moved(s, (arguments(args).len() - 1) as nat),
{
    let w = super::expr_laws::listed(args, 0);
    let (open, close) = (
        super::expr_laws::mark(TokenKind::LParen),
        super::expr_laws::mark(TokenKind::RParen),
    );
    super::expr_laws::lemma_split(inp, s.pos, open + w, close);
    super::expr_laws::lemma_split(inp, s.pos, open, w);
    super::expr_laws::lemma_mark(inp, s.pos, TokenKind::LParen);
    super::expr_laws::lemma_mark(inp, s.pos + 1 + w.len(), TokenKind::RParen);
    let s1 = super::expr_laws::moved(s, 1);
    super::expr_laws::lemma_list(inp, s1, args, TokenKind::RParen);
    let s2 = super::expr_laws::moved(s1, w.len());
    assert(super::state::skip_if(inp, s2, TokenKind::RParen) == super::expr_laws::moved(
        s,
        w.len() + 2,
    ));
}

/// A system task with its arguments.
pub proof fn law_system_task(inp: Input, s: PState, name: Seq<char>, args: Seq<SynExpr>)
    requires
        super::state::ok(inp, s),
        forall|i: int| 0 <= i < args.len() ==> super::expr_laws::writable(#[trigger] args[i]),
        name.len() > 0 && name[0] == '$',
        super::expr_laws::spells(
            inp,
            s.pos,
            super::expr_laws::named(name) + arguments(args) + super::expr_laws::mark(
                TokenKind::Semicolon,
            ),
        ),
    ensures
        super::stmt::p_stmt(inp, s) == (
            Some(seq![SynStmt::SystemTask { name, args }]),
            super::expr_laws::moved(s, arguments(args).len() + 2),
        ),
{
    let (w, end) = (arguments(args), super::expr_laws::mark(TokenKind::Semicolon));
    super::expr_laws::lemma_split(inp, s.pos, super::expr_laws::named(name) + w, end);
    super::expr_laws::lemma_split(inp, s.pos, super::expr_laws::named(name), w);
    lemma_name(inp, s.pos, name);
    super::expr_laws::lemma_mark(inp, s.pos + 1 + w.len(), TokenKind::Semicolon);
    let s1 = super::expr_laws::moved(s, 1);
    lemma_arguments(inp, s1, args);
    assert(super::state::bump(inp, s) == s1);
    assert(super::state::bump(inp, s1) == super::expr_laws::moved(s1, 1));
    let s2 = super::expr_laws::moved(s1, w.len());
    assert(super::state::skip_if(inp, s2, TokenKind::Semicolon) == super::expr_laws::moved(
        s,
        w.len() + 2,
    ));
    reveal(super::expr_laws::list_of);
}

/// A call of a task stands for its body with each formal bound to the argument in its place.
pub proof fn law_task_call(inp: Input, s: PState, k: int, args: Seq<SynExpr>)
    requires
        super::state::ok(inp, s),
        forall|i: int| 0 <= i < args.len() ==> super::expr_laws::writable(#[trigger] args[i]),
        0 <= k < s.tasks.len(),
        forall|j: int| 0 <= j < k ==> (#[trigger] s.tasks[j]).name != s.tasks[k].name,
        !(s.tasks[k].name.len() > 0 && s.tasks[k].name[0] == '$'),
        s.tasks[k].args.len() == args.len(),
        super::expr_laws::spells(
            inp,
            s.pos,
            super::expr_laws::named(s.tasks[k].name) + arguments(args) + super::expr_laws::mark(
                TokenKind::Semicolon,
            ),
        ),
    ensures
        super::stmt::p_stmt(inp, s) == (
            Some(
                super::subst::subst_stmts(
                    s.tasks[k].body,
                    Seq::new(args.len(), |i: int| (s.tasks[k].args[i], args[i])),
                ),
            ),
            super::expr_laws::moved(s, arguments(args).len() + 2),
        ),
{
    let name = s.tasks[k].name;
    let (w, end) = (arguments(args), super::expr_laws::mark(TokenKind::Semicolon));
    super::expr_laws::lemma_split(inp, s.pos, super::expr_laws::named(name) + w, end);
    super::expr_laws::lemma_split(inp, s.pos, super::expr_laws::named(name), w);
    lemma_name(inp, s.pos, name);
    super::expr_laws::lemma_mark(inp, s.pos + 1 + w.len(), TokenKind::Semicolon);
    let s1 = super::expr_laws::moved(s, 1);
    lemma_arguments(inp, s1, args);
    lemma_first_task(s.tasks, k);
    assert(super::state::bump(inp, s) == s1);
    assert(super::state::bump(inp, s1) == super::expr_laws::moved(s1, 1));
    let s2 = super::expr_laws::moved(s1, w.len());
    assert(super::state::skip_if(inp, s2, TokenKind::Semicolon) == super::expr_laws::moved(
        s,
        w.len() + 2,
    ));
    reveal(super::expr_laws::list_of);
    assert(super::state::zip_args(s.tasks[k].args, args) =~= Seq::new(
        args.len(),
        |i: int| (s.tasks[k].args[i], args[i]),
    ));
}

proof fn lemma_first_task(tasks: Seq<super::state::TaskM>, k: int)
    requires
        0 <= k < tasks.len(),
        forall|j: int| 0 <= j < k ==> (#[trigger] tasks[j]).name != tasks[k].name,
    ensures
        super::state::find_task(tasks, tasks[k].name) == Some(tasks[k]),
    decreases tasks.len(),
{
    if k == tasks.len() - 1 {
        lemma_no_task(tasks.drop_last(), tasks[k].name);
    } else {
        assert(tasks.drop_last()[k] == tasks[k]);
        assert forall|j: int| 0 <= j < k implies (#[trigger] tasks.drop_last()[j]).name
            != tasks.drop_last()[k].name by {
            assert(tasks[j].name != tasks[k].name);
        }
        lemma_first_task(tasks.drop_last(), k);
    }
}

proof fn lemma_no_task(tasks: Seq<super::state::TaskM>, name: Seq<char>)
    requires
        forall|j: int| 0 <= j < tasks.len() ==> (#[trigger] tasks[j]).name != name,
    ensures
        super::state::find_task(tasks, name) is None,
    decreases tasks.len(),
{
    if tasks.len() > 0 {
        assert(tasks[tasks.len() - 1].name != name);
        assert forall|j: int| 0 <= j < tasks.drop_last().len() implies (
        #[trigger] tasks.drop_last()[j]).name != name by {
            assert(tasks[j].name != name);
        }
        lemma_no_task(tasks.drop_last(), name);
    }
}

/// A delay: a number behind `#`, with an optional point and fraction.
pub proof fn law_delay(inp: Input, s: PState, whole: Seq<char>, part: Seq<char>)
    requires
        super::state::ok(inp, s),
    ensures
        ({
            let number = |text: Seq<char>| seq![Word { kind: TokenKind::Number, text }];
            let hash = super::expr_laws::mark(TokenKind::Hash);
            let semi = super::expr_laws::mark(TokenKind::Semicolon);
            let dot = super::expr_laws::mark(TokenKind::Dot);
            &&& super::expr_laws::spells(inp, s.pos, hash + number(whole) + semi)
                ==> super::stmt::p_stmt(inp, s) == (
                Some(seq![SynStmt::Delay(crate::delay_rational::delay_value(whole))]),
                super::expr_laws::moved(s, 3),
            )
            &&& super::expr_laws::spells(inp, s.pos, hash + number(whole) + dot + number(part) + semi)
                ==> super::stmt::p_stmt(inp, s) == (
                Some(
                    seq![
                        SynStmt::Delay(
                            crate::delay_rational::delay_value(whole + seq!['.'] + part),
                        ),
                    ],
                ),
                super::expr_laws::moved(s, 5),
            )
        }),
{
    reveal(super::expr_laws::reads);
    let number = |text: Seq<char>| seq![Word { kind: TokenKind::Number, text }];
    let hash = super::expr_laws::mark(TokenKind::Hash);
    let semi = super::expr_laws::mark(TokenKind::Semicolon);
    let dot = super::expr_laws::mark(TokenKind::Dot);
    let a = hash + number(whole) + semi;
    let b = hash + number(whole) + dot + number(part) + semi;
    let s1 = super::expr_laws::moved(s, 1);
    let s2 = super::expr_laws::moved(s, 2);
    let s3 = super::expr_laws::moved(s, 3);
    let s4 = super::expr_laws::moved(s, 4);
    if super::expr_laws::spells(inp, s.pos, a) {
        assert(a[0] == hash[0] && a[1] == number(whole)[0] && a[2] == semi[0]);
        assert(super::state::bump(inp, s) == s1);
        assert(super::state::bump(inp, s1) == s2);
        assert(super::state::skip_if(inp, s2, TokenKind::Semicolon) == s3);
    }
    if super::expr_laws::spells(inp, s.pos, b) {
        assert(b[0] == hash[0] && b[1] == number(whole)[0] && b[2] == dot[0] && b[3] == number(
            part,
        )[0] && b[4] == semi[0]);
        assert(super::state::bump(inp, s) == s1);
        assert(super::state::bump(inp, s1) == s2);
        assert(super::state::bump(inp, s2) == s3);
        assert(super::state::bump(inp, s3) == s4);
        assert(whole.push('.') + part =~= whole + seq!['.'] + part);
        assert(super::state::skip_if(inp, s4, TokenKind::Semicolon) == super::expr_laws::moved(
            s,
            5,
        ));
    }
}

/// The words of one entry of a sensitivity list.
pub open spec fn edge_words(edge: (EdgeKind, Seq<char>)) -> Seq<Word> {
    let name = super::expr_laws::named(edge.1);
    match edge.0 {
        EdgeKind::Posedge => super::expr_laws::mark(TokenKind::Posedge) + name,
        EdgeKind::Negedge => super::expr_laws::mark(TokenKind::Negedge) + name,
        EdgeKind::Level => name,
    }
}

/// One entry of a sensitivity list: with a comma or `or` behind it, the list goes on, and
/// otherwise it ends there.
pub proof fn law_sensitivity_entry(
    inp: Input,
    s: PState,
    so_far: Seq<(EdgeKind, Seq<char>)>,
    edge: (EdgeKind, Seq<char>),
)
    requires
        super::state::ok(inp, s),
        super::expr_laws::spells(inp, s.pos, edge_words(edge)),
    ensures
        ({
            let t = super::expr_laws::moved(s, edge_words(edge).len());
            let k = inp.toks[t.pos].kind;
            let goes_on = k == TokenKind::Comma || k == TokenKind::Identifier
                && inp.toks[t.pos].lexeme == "or"@;
            &&& goes_on ==> super::stmt::p_edges(inp, s, so_far) == super::stmt::p_edges(
                inp,
                super::expr_laws::moved(t, 1),
                so_far.push(edge),
            )
            &&& !goes_on ==> super::stmt::p_edges(inp, s, so_far) == (so_far.push(edge), t)
        }),
{
    let n = super::expr_laws::named(edge.1);
    match edge.0 {
        EdgeKind::Posedge => {
            super::expr_laws::lemma_split(
                inp,
                s.pos,
                super::expr_laws::mark(TokenKind::Posedge),
                n,
            );
            super::expr_laws::lemma_mark(inp, s.pos, TokenKind::Posedge);
            lemma_name(inp, s.pos + 1, edge.1);
        },
        EdgeKind::Negedge => {
            super::expr_laws::lemma_split(
                inp,
                s.pos,
                super::expr_laws::mark(TokenKind::Negedge),
                n,
            );
            super::expr_laws::lemma_mark(inp, s.pos, TokenKind::Negedge);
            lemma_name(inp, s.pos + 1, edge.1);
        },
        EdgeKind::Level => {
            assert(edge_words(edge) =~= n);
            lemma_name(inp, s.pos, edge.1);
        },
    }
    let t = super::expr_laws::moved(s, edge_words(edge).len());
    let k = inp.toks[t.pos].kind;
    if k == TokenKind::Comma || k == TokenKind::Identifier {
        assert(super::state::bump(inp, t) == super::expr_laws::moved(t, 1));
    }
    assert(edge == (edge.0, edge.1));
}

/// `@*` and `@(*)` stand for every signal that is read, and `@(..)` for the entries in it.
pub proof fn law_sensitivity(inp: Input, s: PState, edges: Seq<(EdgeKind, Seq<char>)>, t: PState)
    requires
        super::state::ok(inp, s),
    ensures
        ({
            let at = super::expr_laws::mark(TokenKind::At);
            let star = super::expr_laws::mark(TokenKind::Star);
            let open = super::expr_laws::mark(TokenKind::LParen);
            let close = super::expr_laws::mark(TokenKind::RParen);
            &&& super::expr_laws::spells(inp, s.pos, at + star) ==> super::stmt::p_sensitivity(
                inp,
                s,
            ) == (SynSens::Star, super::expr_laws::moved(s, 2))
            &&& super::expr_laws::spells(inp, s.pos, at + open + star + close)
                ==> super::stmt::p_sensitivity(inp, s) == (
                SynSens::Star,
                super::expr_laws::moved(s, 4),
            )
            &&& super::expr_laws::spells(inp, s.pos, at + open) && inp.toks[s.pos + 2].kind
                != TokenKind::Star && super::stmt::p_edges(
                inp,
                super::expr_laws::moved(s, 2),
                Seq::empty(),
            ) == (edges, t) && 0 <= t.pos < inp.toks.len() && inp.toks[t.pos].kind
                == TokenKind::RParen ==> super::stmt::p_sensitivity(inp, s) == (
                SynSens::EdgeList(edges),
                super::expr_laws::moved(t, 1),
            )
        }),
{
    reveal(super::expr_laws::reads);
    let at = super::expr_laws::mark(TokenKind::At);
    let star = super::expr_laws::mark(TokenKind::Star);
    let open = super::expr_laws::mark(TokenKind::LParen);
    let close = super::expr_laws::mark(TokenKind::RParen);
    let (a, b, c) = (at + star, at + open + star + close, at + open);
    let s1 = super::expr_laws::moved(s, 1);
    let s2 = super::expr_laws::moved(s, 2);
    let s3 = super::expr_laws::moved(s, 3);
    if super::expr_laws::spells(inp, s.pos, a) {
        assert(a[0] == at[0] && a[1] == star[0]);
        assert(super::state::bump(inp, s) == s1);
        assert(super::state::bump(inp, s1) == s2);
    }
    if super::expr_laws::spells(inp, s.pos, b) {
        assert(b[0] == at[0] && b[1] == open[0] && b[2] == star[0] && b[3] == close[0]);
        assert(super::state::bump(inp, s) == s1);
        assert(super::state::bump(inp, s1) == s2);
        assert(super::state::bump(inp, s2) == s3);
        assert(super::state::skip_if(inp, s3, TokenKind::RParen) == super::expr_laws::moved(s, 4));
    }
    if super::expr_laws::spells(inp, s.pos, c) {
        assert(c[0] == at[0] && c[1] == open[0]);
        assert(super::state::bump(inp, s) == s1);
        assert(super::state::bump(inp, s1) == s2);
        if 0 <= t.pos < inp.toks.len() && inp.toks[t.pos].kind == TokenKind::RParen {
            assert(super::state::skip_if(inp, t, TokenKind::RParen) == super::expr_laws::moved(
                t,
                1,
            ));
        }
    }
}

/// A call of a function stands for its value with each formal bound to the argument in its
/// place.
pub proof fn law_function_call(inp: Input, s: PState, k: int, args: Seq<SynExpr>)
    requires
        super::state::ok(inp, s),
        forall|i: int| 0 <= i < args.len() ==> super::expr_laws::writable(#[trigger] args[i]),
        0 <= k < s.funcs.len(),
        forall|j: int| 0 <= j < k ==> (#[trigger] s.funcs[j]).name != s.funcs[k].name,
        s.funcs[k].name != "$signed"@ && s.funcs[k].name != "$clog2"@,
        s.funcs[k].args.len() == args.len(),
        super::expr_laws::spells(
            inp,
            s.pos,
            super::expr_laws::named(s.funcs[k].name) + arguments(args),
        ),
    ensures
        super::expr::p_operand(inp, s) == (
            super::subst::subst_expr(
                s.funcs[k].body,
                Seq::new(args.len(), |i: int| (s.funcs[k].args[i], args[i])),
            ),
            super::expr_laws::moved(s, arguments(args).len() + 1),
        ),
{
    let name = s.funcs[k].name;
    let w = arguments(args);
    super::expr_laws::lemma_split(inp, s.pos, super::expr_laws::named(name), w);
    lemma_name(inp, s.pos, name);
    let s1 = super::expr_laws::moved(s, 1);
    lemma_arguments(inp, s1, args);
    lemma_first_func(s.funcs, k);
    assert(super::state::bump(inp, s) == s1);
    assert(super::state::bump(inp, s1) == super::expr_laws::moved(s1, 1));
    lemma_named_operand(inp, s);
    lemma_inlined_call(inp, s1, s.funcs[k], args);
    assert(super::state::zip_args(s.funcs[k].args, args) =~= Seq::new(
        args.len(),
        |i: int| (s.funcs[k].args[i], args[i]),
    ));
}

proof fn lemma_named_operand(inp: Input, s: PState)
    requires
        super::state::ok(inp, s),
        inp.toks[s.pos].kind == TokenKind::Identifier,
    ensures
        super::expr::p_operand(inp, s) == super::expr::p_name(
            inp,
            super::state::bump(inp, s),
            inp.toks[s.pos].lexeme,
        ),
{
}

proof fn lemma_inlined_call(inp: Input, s: PState, f: super::state::FuncM, args: Seq<SynExpr>)
    requires
        super::state::ok(inp, s),
        inp.toks[s.pos].kind == TokenKind::LParen,
        f.name != "$signed"@ && f.name != "$clog2"@,
        super::state::find_func(s.funcs, f.name) == Some(f),
        super::expr_laws::list_of(inp, super::state::bump(inp, s), TokenKind::RParen).0 == args,
        args.len() == f.args.len(),
    ensures
        super::expr::p_name(inp, s, f.name) == (
            super::subst::subst_expr(f.body, super::state::zip_args(f.args, args)),
            super::state::skip_if(
                inp,
                super::expr_laws::list_of(inp, super::state::bump(inp, s), TokenKind::RParen).1,
                TokenKind::RParen,
            ),
        ),
{
    reveal(super::expr_laws::list_of);
}

proof fn lemma_first_func(funcs: Seq<super::state::FuncM>, k: int)
    requires
        0 <= k < funcs.len(),
        forall|j: int| 0 <= j < k ==> (#[trigger] funcs[j]).name != funcs[k].name,
    ensures
        super::state::find_func(funcs, funcs[k].name) == Some(funcs[k]),
    decreases funcs.len(),
{
    if k == funcs.len() - 1 {
        lemma_no_func(funcs.drop_last(), funcs[k].name);
    } else {
        assert(funcs.drop_last()[k] == funcs[k]);
        assert forall|j: int| 0 <= j < k implies (#[trigger] funcs.drop_last()[j]).name
            != funcs.drop_last()[k].name by {
            assert(funcs[j].name != funcs[k].name);
        }
        lemma_first_func(funcs.drop_last(), k);
    }
}

proof fn lemma_no_func(funcs: Seq<super::state::FuncM>, name: Seq<char>)
    requires
        forall|j: int| 0 <= j < funcs.len() ==> (#[trigger] funcs[j]).name != name,
    ensures
        super::state::find_func(funcs, name) is None,
    decreases funcs.len(),
{
    if funcs.len() > 0 {
        assert(funcs[funcs.len() - 1].name != name);
        assert forall|j: int| 0 <= j < funcs.drop_last().len() implies (
        #[trigger] funcs.drop_last()[j]).name != name by {
            assert(funcs[j].name != name);
        }
        lemma_no_func(funcs.drop_last(), name);
    }
}

} // verus!
