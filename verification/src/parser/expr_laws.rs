//! Laws: an expression that is written down in tokens is parsed to itself.
//!
//! Writing follows the precedence of the operators, from `||` at the bottom to `* / %` at
//! the top, with parentheses only where an operand needs them: a left operand may be of the
//! precedence of its operator, a right one must bind more tightly.
use super::cst::{BinaryOp, SynExpr, UnaryOp};
use super::state::{Input, PState};
use crate::lexer::TokenKind;
use vstd::prelude::*;

verus! {

/// A token without its place; the text counts only of names and numbers.
pub ghost struct Word {
    pub kind: TokenKind,
    pub text: Seq<char>,
}

/// Precedence of a binary operator, from 1.
pub open spec fn level(op: BinaryOp) -> int {
    match op {
        BinaryOp::LogOr => 1,
        BinaryOp::LogAnd => 2,
        BinaryOp::Or => 3,
        BinaryOp::Xor => 4,
        BinaryOp::And => 5,
        BinaryOp::Eq | BinaryOp::Ne => 6,
        BinaryOp::Lt | BinaryOp::Le | BinaryOp::Gt | BinaryOp::Ge => 7,
        BinaryOp::Shl | BinaryOp::Shr | BinaryOp::Ashr => 8,
        BinaryOp::Add | BinaryOp::Sub => 9,
        BinaryOp::Mul | BinaryOp::Div | BinaryOp::Mod => 10,
    }
}

/// The token of a binary operator.
pub open spec fn sign(op: BinaryOp) -> TokenKind {
    match op {
        BinaryOp::LogOr => TokenKind::LogOr,
        BinaryOp::LogAnd => TokenKind::LogAnd,
        BinaryOp::Or => TokenKind::Pipe,
        BinaryOp::Xor => TokenKind::Caret,
        BinaryOp::And => TokenKind::Amp,
        BinaryOp::Eq => TokenKind::EqEq,
        BinaryOp::Ne => TokenKind::Ne,
        BinaryOp::Lt => TokenKind::Lt,
        BinaryOp::Le => TokenKind::Le,
        BinaryOp::Gt => TokenKind::Gt,
        BinaryOp::Ge => TokenKind::Ge,
        BinaryOp::Shl => TokenKind::Shl,
        BinaryOp::Shr => TokenKind::Shr,
        BinaryOp::Ashr => TokenKind::Ashr,
        BinaryOp::Add => TokenKind::Plus,
        BinaryOp::Sub => TokenKind::Minus,
        BinaryOp::Mul => TokenKind::Star,
        BinaryOp::Div => TokenKind::Slash,
        BinaryOp::Mod => TokenKind::Percent,
    }
}

/// The token of a prefix operator. A prefix plus is not written.
pub open spec fn prefix(op: UnaryOp) -> TokenKind {
    match op {
        UnaryOp::Not => TokenKind::Tilde,
        UnaryOp::LogNot => TokenKind::Bang,
        UnaryOp::Neg => TokenKind::Minus,
        UnaryOp::Pos => TokenKind::Plus,
    }
}

pub open spec fn mark(kind: TokenKind) -> Seq<Word> {
    seq![Word { kind, text: Seq::empty() }]
}

pub open spec fn named(text: Seq<char>) -> Seq<Word> {
    seq![Word { kind: TokenKind::Identifier, text }]
}

/// Parentheses around words, where they are needed.
pub open spec fn grouped(needed: bool, inner: Seq<Word>) -> Seq<Word> {
    if needed {
        mark(TokenKind::LParen) + inner + mark(TokenKind::RParen)
    } else {
        inner
    }
}

/// How tightly an expression binds: a conditional not at all, a binary operator by its
/// precedence, a prefix operator more than any of those, and everything else most.
pub open spec fn binding(e: SynExpr) -> int {
    match e {
        SynExpr::Ternary { .. } => 0,
        SynExpr::Binary { op, .. } => level(op),
        SynExpr::Unary { .. } => 11,
        _ => 12,
    }
}

/// The words of an expression without parentheses around it.
pub open spec fn bare(e: SynExpr) -> Seq<Word>
    decreases e, 0int,
{
    match e {
        SynExpr::Ident(name) => named(name),
        SynExpr::Number(text) => seq![Word { kind: TokenKind::Number, text }],
        SynExpr::Binary { op, left, right } => written(*left, level(op)) + mark(sign(op))
            + written(*right, level(op) + 1),
        SynExpr::Unary { op, operand } => mark(prefix(op)) + written(*operand, 11),
        SynExpr::Ternary { cond, then_expr, else_expr } => written(*cond, 1) + mark(
            TokenKind::Question,
        ) + written(*then_expr, 0) + mark(TokenKind::Colon) + written(*else_expr, 0),
        SynExpr::Concat(parts) => mark(TokenKind::LBrace) + listed(parts, 0) + mark(
            TokenKind::RBrace,
        ),
        SynExpr::Index { base, msb, lsb } => written(*base, 12) + mark(TokenKind::LBracket)
            + written(*msb, 0) + match lsb {
            Some(l) => mark(TokenKind::Colon) + written(*l, 0),
            None => Seq::empty(),
        } + mark(TokenKind::RBracket),
        SynExpr::Signed(x) => named("$signed"@) + mark(TokenKind::LParen) + written(*x, 0) + mark(
            TokenKind::RParen,
        ),
        SynExpr::Clog2(x) => named("$clog2"@) + mark(TokenKind::LParen) + written(*x, 0) + mark(
            TokenKind::RParen,
        ),
    }
}

/// The words of an expression where only what binds at least as tightly as `min` may stand
/// without parentheses.
pub open spec fn written(e: SynExpr, min: int) -> Seq<Word>
    decreases e, 1int,
{
    grouped(binding(e) < min, bare(e))
}

/// The words of the expressions from `k` on, with commas between all of them.
pub open spec fn listed(es: Seq<SynExpr>, k: int) -> Seq<Word>
    decreases es, es.len() - k,
{
    if 0 <= k < es.len() {
        (if k > 0 {
            mark(TokenKind::Comma)
        } else {
            Seq::empty()
        }) + written(es[k], 0) + listed(es, k + 1)
    } else {
        Seq::empty()
    }
}

/// The expression holds no prefix plus, which has no syntax.
pub open spec fn writable(e: SynExpr) -> bool
    decreases e,
{
    match e {
        SynExpr::Ident(_) | SynExpr::Number(_) => true,
        SynExpr::Binary { left, right, .. } => writable(*left) && writable(*right),
        SynExpr::Unary { op, operand } => op != UnaryOp::Pos && writable(*operand),
        SynExpr::Ternary { cond, then_expr, else_expr } => writable(*cond) && writable(*then_expr)
            && writable(*else_expr),
        SynExpr::Concat(parts) => forall|i: int|
            0 <= i < parts.len() ==> writable(#[trigger] parts[i]),
        SynExpr::Index { base, msb, lsb } => writable(*base) && writable(*msb) && match lsb {
            Some(l) => writable(*l),
            None => true,
        },
        SynExpr::Signed(x) => writable(*x),
        SynExpr::Clog2(x) => writable(*x),
    }
}

/// The tokens from `i` on are the words.
#[verifier::opaque]
pub open spec fn reads(inp: Input, i: int, words: Seq<Word>) -> bool {
    forall|j: int|
        0 <= j < words.len() ==> inp.toks[i + j].kind == (#[trigger] words[j]).kind && (
        words[j].kind == TokenKind::Identifier || words[j].kind == TokenKind::Number
            ==> inp.toks[i + j].lexeme == words[j].text)
}

/// The tokens from `i` on are the words, and another token follows.
pub open spec fn spells(inp: Input, i: int, words: Seq<Word>) -> bool {
    0 <= i && i + words.len() < inp.toks.len() && reads(inp, i, words)
}

/// `n` tokens further on, and nothing else changed.
pub open spec fn moved(s: PState, n: nat) -> PState {
    PState { pos: s.pos + n, ..s }
}

/// A token that ends an expression.
pub open spec fn closes(k: TokenKind) -> bool {
    ||| k == TokenKind::RParen
    ||| k == TokenKind::RBracket
    ||| k == TokenKind::RBrace
    ||| k == TokenKind::Comma
    ||| k == TokenKind::Semicolon
    ||| k == TokenKind::Colon
    ||| k == TokenKind::Eof
}

/// A token that does not go on with an expression of this binding: no bracket or
/// parenthesis, and no operator that binds more tightly, or at all behind a conditional.
spec fn stops(k: TokenKind, bound: int) -> bool {
    &&& k != TokenKind::LBracket && k != TokenKind::LParen
    &&& super::expr::binary_of(k) matches Some((_, p)) ==> 0 < bound && p <= bound
    &&& k == TokenKind::Question ==> bound > 0
}

pub proof fn lemma_split(inp: Input, i: int, a: Seq<Word>, b: Seq<Word>)
    requires
        spells(inp, i, a + b),
    ensures
        spells(inp, i, a),
        spells(inp, i + a.len(), b),
{
    reveal(reads);
    let w = a + b;
    assert forall|j: int| 0 <= j < a.len() implies inp.toks[i + j].kind == (#[trigger] a[j]).kind
        && (a[j].kind == TokenKind::Identifier || a[j].kind == TokenKind::Number
        ==> inp.toks[i + j].lexeme == a[j].text) by {
        assert(w[j] == a[j]);
    }
    assert forall|j: int| 0 <= j < b.len() implies inp.toks[i + a.len() + j].kind == (
    #[trigger] b[j]).kind && (b[j].kind == TokenKind::Identifier || b[j].kind == TokenKind::Number
        ==> inp.toks[i + a.len() + j].lexeme == b[j].text) by {
        assert(w[j + a.len()] == b[j]);
    }
}

pub proof fn lemma_mark(inp: Input, i: int, k: TokenKind)
    requires
        spells(inp, i, mark(k)),
    ensures
        inp.toks[i].kind == k,
{
    reveal(reads);
    assert(mark(k)[0].kind == k);
}

/// The token of a binary operator stands for it, with its precedence.
proof fn lemma_operator(op: BinaryOp)
    ensures
        super::expr::binary_of(sign(op)) == Some((op, level(op) as u8)),
        sign(op) != TokenKind::LBracket,
        sign(op) != TokenKind::LParen,
        sign(op) != TokenKind::Question,
        1 <= level(op) <= 10,
{
}

/// A bare binary operator or conditional: parsing at `m` goes on behind it as with a left
/// operand.
proof fn lemma_bare_chain(inp: Input, s: PState, e: SynExpr, m: u8)
    requires
        super::state::ok(inp, s),
        writable(e),
        e is Binary || e is Ternary,
        spells(inp, s.pos, bare(e)),
        m <= binding(e),
        stops(inp.toks[s.pos + bare(e).len()].kind, binding(e)),
    ensures
        super::expr::p_expr(inp, s, m) == super::expr::p_operators(
            inp,
            moved(s, bare(e).len()),
            e,
            m,
        ),
    decreases e, 0int,
{
    match e {
        SynExpr::Binary { op, left, right } => {
            let p = level(op);
            let (wl, wo, wr) = (written(*left, p), mark(sign(op)), written(*right, p + 1));
            lemma_operator(op);
            lemma_split(inp, s.pos, wl + wo, wr);
            lemma_split(inp, s.pos, wl, wo);
            lemma_mark(inp, s.pos + wl.len(), sign(op));
            assert(bare(e).len() == wl.len() + 1 + wr.len());
            lemma_operand(inp, s, *left, p, m);
            let s1 = moved(s, wl.len());
            let s2 = moved(s, wl.len() + 1);
            lemma_operand(inp, s2, *right, p + 1, (p + 1) as u8);
            let s3 = moved(s2, wr.len());
            assert(s3 == moved(s, bare(e).len()));
            let k = inp.toks[s3.pos].kind;
            assert(super::expr::p_operators(inp, s3, *right, (p + 1) as u8) == (*right, s3));
            assert(super::state::bump(inp, s1) == s2);
            assert(super::expr::p_expr(inp, s2, (p + 1) as u8) == (*right, s3));
            assert(super::state::upto(inp, s2, s3) == s3);
            assert(e == SynExpr::Binary { op, left: Box::new(*left), right: Box::new(*right) });
        },
        SynExpr::Ternary { cond, then_expr, else_expr } => {
            let (wc, wt, we) = (written(*cond, 1), written(*then_expr, 0), written(*else_expr, 0));
            let (q, c) = (mark(TokenKind::Question), mark(TokenKind::Colon));
            lemma_split(inp, s.pos, wc + q + wt + c, we);
            lemma_split(inp, s.pos, wc + q + wt, c);
            lemma_split(inp, s.pos, wc + q, wt);
            lemma_split(inp, s.pos, wc, q);
            lemma_mark(inp, s.pos + wc.len(), TokenKind::Question);
            lemma_mark(inp, s.pos + wc.len() + 1 + wt.len(), TokenKind::Colon);
            assert(bare(e).len() == wc.len() + 1 + wt.len() + 1 + we.len());
            lemma_operand(inp, s, *cond, 1, m);
            let s1 = moved(s, wc.len());
            let s2 = moved(s1, 1);
            lemma_operand(inp, s2, *then_expr, 0, 0);
            let s3 = moved(s2, wt.len());
            assert(super::expr::p_expr(inp, s2, 0) == (*then_expr, s3));
            let s4 = moved(s3, 1);
            assert(super::state::bump(inp, s1) == s2);
            assert(super::state::upto(inp, s2, s3) == s3);
            assert(super::state::skip_if(inp, s3, TokenKind::Colon) == s4);
            lemma_operand(inp, s4, *else_expr, 0, 0);
            let s5 = moved(s4, we.len());
            assert(super::expr::p_expr(inp, s4, 0) == (*else_expr, s5));
            assert(super::state::upto(inp, s4, s5) == s5);
            assert(s5 == moved(s, bare(e).len()));
        },
        _ => {},
    }
}

/// An operand of at least the binding `min`: parsing at `m`, which is no more than that, goes
/// on behind it as with a left operand.
proof fn lemma_operand(inp: Input, s: PState, e: SynExpr, min: int, m: u8)
    requires
        super::state::ok(inp, s),
        writable(e),
        0 <= min <= 11,
        m <= min,
        spells(inp, s.pos, written(e, min)),
        stops(
            inp.toks[s.pos + written(e, min).len()].kind,
            if binding(e) < min {
                12
            } else {
                binding(e)
            },
        ),
    ensures
        super::expr::p_expr(inp, s, m) == super::expr::p_operators(
            inp,
            moved(s, written(e, min).len()),
            e,
            m,
        ),
        written(e, min).len() > 0,
    decreases e, 5int,
{
    lemma_written_len(e, min);
    if binding(e) >= min && binding(e) < 11 {
        lemma_bare_chain(inp, s, e, m);
    } else {
        lemma_written_same(e, min);
        lemma_prefixed(inp, s, e);
    }
}

/// From the binding of prefix operators on, what is written is the same.
proof fn lemma_written_same(e: SynExpr, min: int)
    requires
        min <= 11,
        binding(e) < min || binding(e) >= 11,
    ensures
        written(e, min) == written(e, 11),
{
}

proof fn lemma_written_len(e: SynExpr, min: int)
    ensures
        written(e, min).len() > 0,
        bare(e).len() > 0,
{
}

/// Prefix operators and what they stand in front of.
proof fn lemma_prefixed(inp: Input, s: PState, e: SynExpr)
    requires
        super::state::ok(inp, s),
        writable(e),
        spells(inp, s.pos, written(e, 11)),
        inp.toks[s.pos + written(e, 11).len()].kind != TokenKind::LBracket,
        inp.toks[s.pos + written(e, 11).len()].kind != TokenKind::LParen,
    ensures
        super::expr::p_unary(inp, s) == (e, moved(s, written(e, 11).len())),
    decreases e, 4int,
{
    lemma_written_len(e, 11);
    if e is Unary {
        lemma_prefix(inp, s, e);
    } else {
        assert(written(e, 11) == written(e, 12));
        lemma_primary(inp, s, e);
    }
}

/// A bare prefix operator.
proof fn lemma_prefix(inp: Input, s: PState, e: SynExpr)
    requires
        super::state::ok(inp, s),
        writable(e),
        e is Unary,
        spells(inp, s.pos, bare(e)),
        inp.toks[s.pos + bare(e).len()].kind != TokenKind::LBracket,
        inp.toks[s.pos + bare(e).len()].kind != TokenKind::LParen,
    ensures
        super::expr::p_unary(inp, s) == (e, moved(s, bare(e).len())),
    decreases e, 0int,
{
    if let SynExpr::Unary { op, operand } = e {
        let (wo, wx) = (mark(prefix(op)), written(*operand, 11));
        lemma_split(inp, s.pos, wo, wx);
        lemma_mark(inp, s.pos, prefix(op));
        let s1 = moved(s, 1);
        assert(super::state::bump(inp, s) == s1);
        lemma_prefixed(inp, s1, *operand);
        assert(moved(s1, wx.len()) == moved(s, bare(e).len()));
    }
}

/// What takes suffixes: with whatever suffixes follow.
proof fn lemma_primary_open(inp: Input, s: PState, e: SynExpr)
    requires
        super::state::ok(inp, s),
        writable(e),
        spells(inp, s.pos, written(e, 12)),
        inp.toks[s.pos + written(e, 12).len()].kind != TokenKind::LParen,
    ensures
        super::expr::unary_of(super::state::kind(inp, s)) is None,
        super::expr::p_primary(inp, s) == super::expr::p_suffixes(
            inp,
            moved(s, written(e, 12).len()),
            e,
        ),
    decreases e, 2int,
{
    lemma_written_len(e, 12);
    if binding(e) < 12 {
        lemma_grouped(inp, s, e);
    } else {
        lemma_atom(inp, s, e);
    }
}

proof fn lemma_primary(inp: Input, s: PState, e: SynExpr)
    requires
        super::state::ok(inp, s),
        writable(e),
        spells(inp, s.pos, written(e, 12)),
        inp.toks[s.pos + written(e, 12).len()].kind != TokenKind::LBracket,
        inp.toks[s.pos + written(e, 12).len()].kind != TokenKind::LParen,
    ensures
        super::expr::p_unary(inp, s) == (e, moved(s, written(e, 12).len())),
    decreases e, 3int,
{
    lemma_primary_open(inp, s, e);
}

/// An expression in parentheses.
proof fn lemma_grouped(inp: Input, s: PState, e: SynExpr)
    requires
        super::state::ok(inp, s),
        writable(e),
        binding(e) < 12,
        spells(inp, s.pos, grouped(true, bare(e))),
    ensures
        super::expr::unary_of(super::state::kind(inp, s)) is None,
        super::expr::p_primary(inp, s) == super::expr::p_suffixes(
            inp,
            moved(s, grouped(true, bare(e)).len()),
            e,
        ),
    decreases e, 1int,
{
    let w = bare(e);
    lemma_split(inp, s.pos, mark(TokenKind::LParen) + w, mark(TokenKind::RParen));
    lemma_split(inp, s.pos, mark(TokenKind::LParen), w);
    lemma_mark(inp, s.pos, TokenKind::LParen);
    lemma_mark(inp, s.pos + 1 + w.len(), TokenKind::RParen);
    let s1 = moved(s, 1);
    let s2 = moved(s1, w.len());
    assert(super::state::bump(inp, s) == s1);
    if e is Unary {
        lemma_prefix(inp, s1, e);
        assert(super::state::upto(inp, s1, s2) == s2);
    } else {
        lemma_bare_chain(inp, s1, e, 0);
    }
    assert(super::expr::p_expr(inp, s1, 0) == (e, s2));
    let s3 = moved(s2, 1);
    assert(super::state::skip_if(inp, s2, TokenKind::RParen) == s3);
    assert(super::expr::p_operand(inp, s) == (e, s3));
    assert(super::state::upto(inp, s, s3) == s3);
    assert(s3 == moved(s, grouped(true, w).len()));
}

/// An expression in brackets of some kind, up to its closing token.
pub proof fn lemma_enclosed(inp: Input, s: PState, e: SynExpr)
    requires
        super::state::ok(inp, s),
        writable(e),
        spells(inp, s.pos, written(e, 0)),
        closes(inp.toks[s.pos + written(e, 0).len()].kind),
    ensures
        super::expr::p_expr(inp, s, 0) == (e, moved(s, written(e, 0).len())),
        written(e, 0).len() > 0,
    decreases e, 6int,
{
    lemma_operand(inp, s, e, 0, 0);
}

/// What is no operator.
proof fn lemma_atom(inp: Input, s: PState, e: SynExpr)
    requires
        super::state::ok(inp, s),
        writable(e),
        binding(e) == 12,
        spells(inp, s.pos, bare(e)),
        inp.toks[s.pos + bare(e).len()].kind != TokenKind::LParen,
    ensures
        super::expr::unary_of(super::state::kind(inp, s)) is None,
        super::expr::p_primary(inp, s) == super::expr::p_suffixes(
            inp,
            moved(s, bare(e).len()),
            e,
        ),
    decreases e, 1int,
{
    let n = bare(e).len();
    let after = moved(s, n);
    match e {
        SynExpr::Ident(name) => {
            reveal(reads);
            assert(named(name)[0].kind == TokenKind::Identifier);
            assert(super::state::bump(inp, s) == after);
            assert(super::expr::p_operand(inp, s) == (e, after));
        },
        SynExpr::Number(text) => {
            reveal(reads);
            assert(bare(e)[0].kind == TokenKind::Number);
            assert(super::state::bump(inp, s) == after);
            assert(super::expr::p_operand(inp, s) == (e, after));
        },
        SynExpr::Signed(x) => {
            lemma_call(inp, s, e, *x, "$signed"@);
        },
        SynExpr::Clog2(x) => {
            lemma_call(inp, s, e, *x, "$clog2"@);
        },
        SynExpr::Concat(parts) => {
            lemma_concat(inp, s, parts);
            assert(super::expr::p_operand(inp, s) == (e, after));
        },
        SynExpr::Index { .. } => {
            lemma_index(inp, s, e);
        },
        _ => {},
    }
    assert(super::state::upto(inp, s, after) == after);
}

proof fn lemma_call(inp: Input, s: PState, e: SynExpr, x: SynExpr, name: Seq<char>)
    requires
        super::state::ok(inp, s),
        writable(x),
        e == SynExpr::Signed(Box::new(x)) && name == "$signed"@ || e == SynExpr::Clog2(Box::new(x))
            && name == "$clog2"@,
        spells(
            inp,
            s.pos,
            named(name) + mark(TokenKind::LParen) + written(x, 0) + mark(TokenKind::RParen),
        ),
    ensures
        super::state::kind(inp, s) == TokenKind::Identifier,
        super::expr::p_operand(inp, s) == (e, moved(s, written(x, 0).len() + 3)),
    decreases x, 7int,
{
    reveal_strlit("$signed");
    reveal_strlit("$clog2");
    let w = written(x, 0);
    lemma_split(inp, s.pos, named(name) + mark(TokenKind::LParen) + w, mark(TokenKind::RParen));
    lemma_split(inp, s.pos, named(name) + mark(TokenKind::LParen), w);
    lemma_split(inp, s.pos, named(name), mark(TokenKind::LParen));
    assert(inp.toks[s.pos].kind == TokenKind::Identifier && inp.toks[s.pos].lexeme == name) by {
        reveal(reads);
        assert(named(name)[0].kind == TokenKind::Identifier);
    }
    lemma_mark(inp, s.pos + 1, TokenKind::LParen);
    lemma_mark(inp, s.pos + 2 + w.len(), TokenKind::RParen);
    let s1 = moved(s, 1);
    let s2 = moved(s, 2);
    let s3 = moved(s2, w.len());
    assert(super::state::bump(inp, s) == s1);
    assert(super::state::bump(inp, s1) == s2);
    lemma_enclosed(inp, s2, x);
    assert(super::state::skip_if(inp, s3, TokenKind::RParen) == moved(s, w.len() + 3));
    assert("$signed"@[1] == 's');
    assert("$clog2"@[1] == 'c');
}

#[verifier::rlimit(60)]
proof fn lemma_index(inp: Input, s: PState, e: SynExpr)
    requires
        super::state::ok(inp, s),
        writable(e),
        e is Index,
        spells(inp, s.pos, bare(e)),
    ensures
        super::expr::unary_of(super::state::kind(inp, s)) is None,
        super::expr::p_primary(inp, s) == super::expr::p_suffixes(
            inp,
            moved(s, bare(e).len()),
            e,
        ),
    decreases e, 0int,
{
    let base = *e->base;
    let msb = *e->msb;
    let lsb = e->lsb;
    let (wb, wm) = (written(base, 12), written(msb, 0));
    let (open, close) = (mark(TokenKind::LBracket), mark(TokenKind::RBracket));
    let wl = match lsb {
        Some(l) => mark(TokenKind::Colon) + written(*l, 0),
        None => Seq::empty(),
    };
    lemma_split(inp, s.pos, wb + open + wm + wl, close);
    lemma_split(inp, s.pos, wb + open + wm, wl);
    lemma_split(inp, s.pos, wb + open, wm);
    lemma_split(inp, s.pos, wb, open);
    lemma_mark(inp, s.pos + wb.len(), TokenKind::LBracket);
    lemma_mark(inp, s.pos + wb.len() + 1 + wm.len() + wl.len(), TokenKind::RBracket);
    assert(decreases_to!(e => base));
    assert(decreases_to!(e => msb));
    lemma_primary_open(inp, s, base);
    let s1 = moved(s, wb.len());
    let s2 = moved(s1, 1);
    let s3 = moved(s2, wm.len());
    assert(super::state::bump(inp, s1) == s2);
    match lsb {
        Some(l) => {
            lemma_split(inp, s3.pos, mark(TokenKind::Colon), written(*l, 0));
            lemma_mark(inp, s3.pos, TokenKind::Colon);
            lemma_enclosed(inp, s2, msb);
            let s4 = moved(s3, 1);
            assert(super::state::upto(inp, s2, s3) == s3);
            assert(super::state::bump(inp, s3) == s4);
            assert(decreases_to!(e => *l));
            lemma_enclosed(inp, s4, *l);
            let s5 = moved(s4, written(*l, 0).len());
            let s6 = moved(s5, 1);
            assert(super::state::skip_if(inp, s5, TokenKind::RBracket) == s6);
            assert(super::expr::p_index(inp, s2) == (msb, lsb, s6));
            assert(super::state::upto(inp, s2, s6) == s6);
            assert(s6 == moved(s, bare(e).len()));
        },
        None => {
            lemma_enclosed(inp, s2, msb);
            let s4 = moved(s3, 1);
            assert(super::state::upto(inp, s2, s3) == s3);
            assert(super::state::skip_if(inp, s3, TokenKind::RBracket) == s4);
            assert(super::expr::p_index(inp, s2) == (msb, lsb, s4));
            assert(super::state::upto(inp, s2, s4) == s4);
            assert(s4 == moved(s, bare(e).len()));
        },
    }
}

/// The words of a concatenation are its parts between braces.
proof fn lemma_concat_words(inp: Input, i: int, parts: Seq<SynExpr>)
    requires
        spells(inp, i, bare(SynExpr::Concat(parts))),
    ensures
        bare(SynExpr::Concat(parts)).len() == listed(parts, 0).len() + 2,
        inp.toks[i].kind == TokenKind::LBrace,
        spells(inp, i + 1, listed(parts, 0)),
        inp.toks[i + 1 + listed(parts, 0).len()].kind == TokenKind::RBrace,
        i + 2 + listed(parts, 0).len() < inp.toks.len(),
{
    let w = listed(parts, 0);
    lemma_split(inp, i, mark(TokenKind::LBrace) + w, mark(TokenKind::RBrace));
    lemma_split(inp, i, mark(TokenKind::LBrace), w);
    lemma_mark(inp, i, TokenKind::LBrace);
    lemma_mark(inp, i + 1 + w.len(), TokenKind::RBrace);
}

/// What follows an opening brace is a concatenation where it is no replication.
proof fn lemma_braces(inp: Input, s: PState, parts: Seq<SynExpr>, t: PState)
    requires
        super::state::ok(inp, s),
        super::expr::p_list(inp, s, TokenKind::RBrace) == (parts, t),
        !(inp.toks[s.pos].kind == TokenKind::Number && inp.toks[s.pos + 1].kind
            == TokenKind::LBrace),
    ensures
        super::expr::p_braces(inp, s) == (
            SynExpr::Concat(parts),
            super::state::skip_if(inp, t, TokenKind::RBrace),
        ),
{
}

/// An opening brace stands for what follows it.
proof fn lemma_brace(inp: Input, s: PState)
    requires
        super::state::ok(inp, s),
        inp.toks[s.pos].kind == TokenKind::LBrace,
    ensures
        super::expr::p_operand(inp, s) == super::expr::p_braces(inp, super::state::bump(inp, s)),
{
}

proof fn lemma_closed(inp: Input, s: PState, parts: Seq<SynExpr>, n: nat)
    requires
        super::state::ok(inp, s),
        s.pos + n + 2 < inp.toks.len(),
        inp.toks[s.pos].kind == TokenKind::LBrace,
        inp.toks[s.pos + 1 + n].kind == TokenKind::RBrace,
        list_of(inp, moved(s, 1), TokenKind::RBrace) == (parts, moved(s, n + 1)),
        !(inp.toks[s.pos + 1].kind == TokenKind::Number && inp.toks[s.pos + 2].kind
            == TokenKind::LBrace),
    ensures
        super::expr::p_operand(inp, s) == (SynExpr::Concat(parts), moved(s, n + 2)),
{
    let s1 = moved(s, 1);
    let s2 = moved(s, n + 1);
    let s3 = moved(s, n + 2);
    assert(super::state::bump(inp, s) == s1);
    assert(super::state::skip_if(inp, s2, TokenKind::RBrace) == s3);
    reveal(list_of);
    lemma_brace(inp, s);
    lemma_braces(inp, s1, parts, s2);
}

/// Parts between braces.
proof fn lemma_concat(inp: Input, s: PState, parts: Seq<SynExpr>)
    requires
        super::state::ok(inp, s),
        forall|i: int| 0 <= i < parts.len() ==> writable(#[trigger] parts[i]),
        spells(inp, s.pos, bare(SynExpr::Concat(parts))),
    ensures
        inp.toks[s.pos].kind == TokenKind::LBrace,
        super::expr::p_operand(inp, s) == (
            SynExpr::Concat(parts),
            moved(s, bare(SynExpr::Concat(parts)).len()),
        ),
    decreases parts, parts.len() + 2,
{
    let n = listed(parts, 0).len();
    lemma_concat_words(inp, s.pos, parts);
    lemma_list(inp, moved(s, 1), parts, TokenKind::RBrace);
    assert(moved(moved(s, 1), n) == moved(s, n + 1));
    lemma_no_replication(inp, moved(s, 1), parts);
    lemma_closed(inp, s, parts, n);
}

/// The expressions from `k` on, each behind a comma, after those before them.
proof fn lemma_more(inp: Input, s: PState, es: Seq<SynExpr>, k: int)
    requires
        super::state::ok(inp, s),
        forall|i: int| 0 <= i < es.len() ==> writable(#[trigger] es[i]),
        0 < k <= es.len(),
        spells(inp, s.pos, listed(es, k)),
        closes(inp.toks[s.pos + listed(es, k).len()].kind),
        inp.toks[s.pos + listed(es, k).len()].kind != TokenKind::Comma,
    ensures
        super::expr::p_more(inp, s, es.take(k)) == (es, moved(s, listed(es, k).len())),
    decreases es, es.len() - k,
{
    if k == es.len() {
        assert(es.take(k) =~= es);
        assert(moved(s, 0) == s);
    } else {
        let (c, w, rest) = (mark(TokenKind::Comma), written(es[k], 0), listed(es, k + 1));
        lemma_split(inp, s.pos, c + w, rest);
        lemma_split(inp, s.pos, c, w);
        lemma_mark(inp, s.pos, TokenKind::Comma);
        let s1 = moved(s, 1);
        assert(super::state::bump(inp, s) == s1);
        lemma_first_kind(inp, s1.pos + w.len(), es, k + 1);
        assert(decreases_to!(es => es[k]));
        lemma_enclosed(inp, s1, es[k]);
        let s2 = moved(s1, w.len());
        assert(super::state::upto(inp, s1, s2) == s2);
        lemma_more(inp, s2, es, k + 1);
        assert(es.take(k).push(es[k]) =~= es.take(k + 1));
        assert(moved(s2, rest.len()) == moved(s, listed(es, k).len()));
    }
}

/// Behind an expression of a list stands a comma or the closing token.
proof fn lemma_first_kind(inp: Input, i: int, es: Seq<SynExpr>, k: int)
    requires
        0 < k <= es.len(),
        spells(inp, i, listed(es, k)),
        closes(inp.toks[i + listed(es, k).len()].kind),
    ensures
        closes(inp.toks[i].kind),
{
    if k < es.len() {
        let (c, w, rest) = (mark(TokenKind::Comma), written(es[k], 0), listed(es, k + 1));
        lemma_split(inp, i, c + w, rest);
        lemma_split(inp, i, c, w);
        lemma_mark(inp, i, TokenKind::Comma);
    }
}

/// The expressions of a list from here on.
#[verifier::opaque]
pub open spec fn list_of(inp: Input, s: PState, close: TokenKind) -> (Seq<SynExpr>, PState)
    recommends
        super::state::ok(inp, s),
{
    super::expr::p_list(inp, s, close)
}

/// A list of expressions up to its closing token.
pub proof fn lemma_list(inp: Input, s: PState, es: Seq<SynExpr>, close: TokenKind)
    requires
        super::state::ok(inp, s),
        forall|i: int| 0 <= i < es.len() ==> writable(#[trigger] es[i]),
        close == TokenKind::RParen || close == TokenKind::RBrace,
        spells(inp, s.pos, listed(es, 0)),
        inp.toks[s.pos + listed(es, 0).len()].kind == close,
    ensures
        list_of(inp, s, close) == (es, moved(s, listed(es, 0).len())),
    decreases es, es.len() + 1,
{
    reveal(list_of);
    if es.len() == 0 {
        assert(es =~= Seq::empty());
        assert(moved(s, 0) == s);
    } else {
        let (w, rest) = (written(es[0], 0), listed(es, 1));
        assert(Seq::<Word>::empty() + w =~= w);
        lemma_split(inp, s.pos, w, rest);
        lemma_first_kind(inp, s.pos + w.len(), es, 1);
        assert(decreases_to!(es => es[0]));
        lemma_enclosed(inp, s, es[0]);
        let s1 = moved(s, w.len());
        assert(super::state::upto(inp, s, s1) == s1);
        lemma_more(inp, s1, es, 1);
        assert(seq![es[0]] =~= es.take(1));
        lemma_opens(inp, s, es[0]);
        assert(moved(s1, rest.len()) == moved(s, listed(es, 0).len()));
    }
}

/// A token that an expression may begin with.
pub open spec fn begins(k: TokenKind) -> bool {
    ||| k == TokenKind::Identifier
    ||| k == TokenKind::Number
    ||| k == TokenKind::LParen
    ||| k == TokenKind::LBrace
    ||| k == TokenKind::Tilde
    ||| k == TokenKind::Bang
    ||| k == TokenKind::Minus
    ||| k == TokenKind::Plus
}

/// No expression begins with a closing token or a keyword.
pub proof fn lemma_opens(inp: Input, s: PState, e: SynExpr)
    requires
        spells(inp, s.pos, written(e, 0)),
    ensures
        begins(inp.toks[s.pos].kind),
    decreases e,
{
    reveal(reads);
    lemma_first_word(e, 0);
    assert(inp.toks[s.pos + 0].kind == written(e, 0)[0].kind);
}

proof fn lemma_first_word(e: SynExpr, min: int)
    ensures
        written(e, min).len() > 0,
        begins(written(e, min)[0].kind),
        begins(bare(e)[0].kind),
    decreases e,
{
    match e {
        SynExpr::Binary { op, left, .. } => {
            lemma_first_word(*left, level(op));
        },
        SynExpr::Ternary { cond, .. } => {
            lemma_first_word(*cond, 1);
        },
        SynExpr::Index { base, .. } => {
            lemma_first_word(*base, 12);
        },
        _ => {},
    }
}

/// A number at the start of a list is not followed by an opening brace.
proof fn lemma_no_replication(inp: Input, s: PState, es: Seq<SynExpr>)
    requires
        spells(inp, s.pos, listed(es, 0)),
        inp.toks[s.pos + listed(es, 0).len()].kind == TokenKind::RBrace,
    ensures
        !(inp.toks[s.pos].kind == TokenKind::Number && inp.toks[s.pos + 1].kind
            == TokenKind::LBrace),
{
    if es.len() > 0 {
        let (w, rest) = (written(es[0], 0), listed(es, 1));
        assert(Seq::<Word>::empty() + w =~= w);
        lemma_split(inp, s.pos, w, rest);
        lemma_first_kind(inp, s.pos + w.len(), es, 1);
        lemma_number_then(es[0], 0);
        reveal(reads);
        assert(inp.toks[s.pos + 0].kind == w[0].kind);
        if w.len() > 1 {
            assert(inp.toks[s.pos + 1].kind == w[1].kind);
        }
    }
}

proof fn lemma_number_then(e: SynExpr, min: int)
    ensures
        written(e, min).len() > 0,
        written(e, min)[0].kind == TokenKind::Number && written(e, min).len() > 1 ==> written(
            e,
            min,
        )[1].kind != TokenKind::LBrace,
    decreases e,
{
    match e {
        SynExpr::Binary { op, left, right } => {
            lemma_number_then(*left, level(op));
            let w = written(*left, level(op));
            if w.len() == 1 {
                assert(bare(e)[1].kind == sign(op));
            } else {
                assert(bare(e)[1] == w[1]);
            }
            assert(bare(e)[0] == w[0]);
        },
        SynExpr::Ternary { cond, .. } => {
            lemma_number_then(*cond, 1);
            let w = written(*cond, 1);
            if w.len() == 1 {
                assert(bare(e)[1].kind == TokenKind::Question);
            } else {
                assert(bare(e)[1] == w[1]);
            }
            assert(bare(e)[0] == w[0]);
        },
        SynExpr::Index { base, .. } => {
            lemma_number_then(*base, 12);
            let w = written(*base, 12);
            if w.len() == 1 {
                assert(bare(e)[1].kind == TokenKind::LBracket);
            } else {
                assert(bare(e)[1] == w[1]);
            }
            assert(bare(e)[0] == w[0]);
        },
        _ => {},
    }
}

/// An expression that is written down, with a closing token behind it, is parsed to itself,
/// and the cursor ends on that token: operators of one precedence group to the left, those
/// of a higher one bind more tightly, a conditional takes all that follows it, and prefix
/// operators, selects and parentheses stand for what they are written for.
pub proof fn law_written_expression(inp: Input, s: PState, e: SynExpr)
    requires
        super::state::ok(inp, s),
        writable(e),
        spells(inp, s.pos, written(e, 0)),
        closes(inp.toks[s.pos + written(e, 0).len()].kind),
    ensures
        super::expr::p_expr(inp, s, 0) == (e, moved(s, written(e, 0).len())),
{
    lemma_enclosed(inp, s, e);
}

pub open spec fn binary(op: BinaryOp, l: SynExpr, r: SynExpr) -> SynExpr {
    SynExpr::Binary { op, left: Box::new(l), right: Box::new(r) }
}

proof fn lemma_written_binary(op: BinaryOp, l: SynExpr, r: SynExpr)
    ensures
        bare(binary(op, l, r)) == written(l, level(op)) + mark(sign(op)) + written(
            r,
            level(op) + 1,
        ),
        binding(binary(op, l, r)) == level(op),
        1 <= level(op) <= 10,
        writable(binary(op, l, r)) <==> writable(l) && writable(r),
{
}

/// Two operators without parentheses, between operands that are no operators themselves: the
/// first one groups first where it binds at least as tightly as the second, and last where
/// it does not. Operators of one precedence so group to the left.
pub proof fn law_two_operators(
    inp: Input,
    s: PState,
    x: SynExpr,
    op1: BinaryOp,
    y: SynExpr,
    op2: BinaryOp,
    z: SynExpr,
)
    requires
        super::state::ok(inp, s),
        writable(x) && writable(y) && writable(z),
        binding(x) == 12 && binding(y) == 12 && binding(z) == 12,
        spells(inp, s.pos, bare(x) + mark(sign(op1)) + bare(y) + mark(sign(op2)) + bare(z)),
        closes(inp.toks[s.pos + bare(x).len() + bare(y).len() + bare(z).len() + 2].kind),
    ensures
        level(op1) >= level(op2) ==> super::expr::p_expr(inp, s, 0).0 == binary(
            op2,
            binary(op1, x, y),
            z,
        ),
        level(op1) < level(op2) ==> super::expr::p_expr(inp, s, 0).0 == binary(
            op1,
            x,
            binary(op2, y, z),
        ),
{
    let words = bare(x) + mark(sign(op1)) + bare(y) + mark(sign(op2)) + bare(z);
    if level(op1) >= level(op2) {
        let inner = binary(op1, x, y);
        let e = binary(op2, inner, z);
        lemma_written_binary(op1, x, y);
        lemma_written_binary(op2, inner, z);
        assert(written(e, 0) =~= words);
        law_written_expression(inp, s, e);
    } else {
        let inner = binary(op2, y, z);
        let e = binary(op1, x, inner);
        lemma_written_binary(op2, y, z);
        lemma_written_binary(op1, x, inner);
        assert(written(e, 0) =~= words);
        law_written_expression(inp, s, e);
    }
}

/// A replication `{N{e}}` stands for `N` copies of `e`.
pub proof fn law_replication(inp: Input, s: PState, text: Seq<char>, ds: Seq<nat>, e: SynExpr)
    requires
        super::state::ok(inp, s),
        writable(e),
        ds.len() > 0,
        crate::literal_laws::digits_are(text, ds, 10),
        crate::literal_laws::worth(ds, 10) <= usize::MAX,
        spells(inp, s.pos, replicated(text, e)),
    ensures
        ({
            let (r, t) = super::expr::p_operand(inp, s);
            &&& t == moved(s, replicated(text, e).len())
            &&& r is Concat && r->Concat_0.len() == crate::literal_laws::worth(ds, 10)
            &&& forall|i: int| 0 <= i < r->Concat_0.len() ==> (#[trigger] r->Concat_0[i]) == e
        }),
{
    let w = written(e, 0);
    let (open, close) = (mark(TokenKind::LBrace), mark(TokenKind::RBrace));
    let number = seq![Word { kind: TokenKind::Number, text }];
    lemma_split(inp, s.pos, open + number + open + w + close, close);
    lemma_split(inp, s.pos, open + number + open + w, close);
    lemma_split(inp, s.pos, open + number + open, w);
    lemma_split(inp, s.pos, open + number, open);
    lemma_split(inp, s.pos, open, number);
    assert(inp.toks[s.pos + 1].kind == TokenKind::Number && inp.toks[s.pos + 1].lexeme == text) by {
        reveal(reads);
        assert(number[0].kind == TokenKind::Number);
    }
    lemma_mark(inp, s.pos, TokenKind::LBrace);
    lemma_mark(inp, s.pos + 2, TokenKind::LBrace);
    lemma_mark(inp, s.pos + 3 + w.len(), TokenKind::RBrace);
    lemma_mark(inp, s.pos + 4 + w.len(), TokenKind::RBrace);
    let s1 = moved(s, 1);
    let s2 = moved(s, 2);
    let s3 = moved(s, 3);
    let s4 = moved(s3, w.len());
    let s5 = moved(s4, 1);
    lemma_enclosed(inp, s3, e);
    assert(super::state::bump(inp, s) == s1);
    assert(super::state::bump(inp, s1) == s2);
    assert(super::state::bump(inp, s2) == s3);
    assert(super::state::skip_if(inp, s4, TokenKind::RBrace) == s5);
    assert(super::state::skip_if(inp, s5, TokenKind::RBrace) == moved(s, w.len() + 5));
    lemma_brace(inp, s);
    crate::literal_laws::law_digits(text, ds, 10);
    assert(crate::literal_laws::digit_is(text[0], ds[0]));
    assert(super::expr::copies_of(text) == crate::literal_laws::worth(ds, 10));
}

/// The words of a replication.
pub open spec fn replicated(text: Seq<char>, e: SynExpr) -> Seq<Word> {
    mark(TokenKind::LBrace) + seq![Word { kind: TokenKind::Number, text }] + mark(TokenKind::LBrace)
        + written(e, 0) + mark(TokenKind::RBrace) + mark(TokenKind::RBrace)
}

} // verus!
