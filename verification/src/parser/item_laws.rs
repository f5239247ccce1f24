//! Laws: what the items of a module, its header and the modules of a file are parsed to.
//!
//! Each law fixes one form by its tokens; where the form holds other parts, it is given what
//! those are parsed to.
use super::cst::{NetKind, SynBlock, SynConn, SynExpr, SynItem, SynModule, SynPort, SynSens, SynStmt, SynTarget};
use super::expr_laws::Word;
use super::state::{Input, PState};
use crate::lexer::TokenKind;
use vstd::prelude::*;

verus! {

/// The kind of token `i`.
pub open spec fn at(inp: Input, i: int) -> TokenKind {
    inp.toks[i].kind
}

/// `n` tokens further on.
pub open spec fn on(s: PState, n: nat) -> PState {
    super::expr_laws::moved(s, n)
}

/// The cursor is on a token of the input.
pub open spec fn inside(inp: Input, s: PState) -> bool {
    0 <= s.pos < inp.toks.len()
}

/// The words of a range of bits or words.
pub open spec fn dimension(msb: SynExpr, lsb: SynExpr) -> Seq<Word> {
    super::expr_laws::mark(TokenKind::LBracket) + super::expr_laws::written(msb, 0)
        + super::expr_laws::mark(TokenKind::Colon) + super::expr_laws::written(lsb, 0)
        + super::expr_laws::mark(TokenKind::RBracket)
}

/// An expression stands here, with a closing token behind it.
pub open spec fn holds(inp: Input, i: int, e: SynExpr) -> bool {
    &&& super::expr_laws::writable(e)
    &&& super::expr_laws::spells(inp, i, super::expr_laws::written(e, 0))
    &&& super::expr_laws::closes(at(inp, i + super::expr_laws::written(e, 0).len()))
}

/// The number of tokens of an expression.
pub open spec fn size(e: SynExpr) -> nat {
    super::expr_laws::written(e, 0).len()
}

proof fn lemma_holds(inp: Input, s: PState, e: SynExpr)
    requires
        super::state::ok(inp, s),
        holds(inp, s.pos, e),
    ensures
        super::expr::p_expr(inp, s, 0) == (e, on(s, size(e))),
        size(e) > 0,
        s.pos + size(e) < inp.toks.len(),
        super::expr_laws::begins(at(inp, s.pos)),
{
    super::expr_laws::lemma_enclosed(inp, s, e);
    super::expr_laws::lemma_opens(inp, s, e);
}

proof fn lemma_bump(inp: Input, s: PState)
    requires
        super::state::ok(inp, s),
        at(inp, s.pos) != TokenKind::Eof,
    ensures
        super::state::bump(inp, s) == on(s, 1),
        s.pos + 1 < inp.toks.len(),
{
}

proof fn lemma_dimension(inp: Input, s: PState, msb: SynExpr, lsb: SynExpr)
    requires
        super::state::ok(inp, s),
        super::expr_laws::writable(msb),
        super::expr_laws::writable(lsb),
        super::expr_laws::spells(inp, s.pos, dimension(msb, lsb)),
    ensures
        at(inp, s.pos) == TokenKind::LBracket,
        super::items::p_dimension(inp, super::state::bump(inp, s)) == (
            msb,
            lsb,
            on(s, dimension(msb, lsb).len()),
        ),
        dimension(msb, lsb).len() > 0,
{
    let (w, v) = (super::expr_laws::written(msb, 0), super::expr_laws::written(lsb, 0));
    let (open, colon, close) = (
        super::expr_laws::mark(TokenKind::LBracket),
        super::expr_laws::mark(TokenKind::Colon),
        super::expr_laws::mark(TokenKind::RBracket),
    );
    super::expr_laws::lemma_split(inp, s.pos, open + w + colon + v, close);
    super::expr_laws::lemma_split(inp, s.pos, open + w + colon, v);
    super::expr_laws::lemma_split(inp, s.pos, open + w, colon);
    super::expr_laws::lemma_split(inp, s.pos, open, w);
    super::expr_laws::lemma_mark(inp, s.pos, TokenKind::LBracket);
    super::expr_laws::lemma_mark(inp, s.pos + 1 + w.len(), TokenKind::Colon);
    super::expr_laws::lemma_mark(inp, s.pos + 2 + w.len() + v.len(), TokenKind::RBracket);
    let s1 = on(s, 1);
    let s2 = on(s1, w.len());
    let s3 = on(s2, 1);
    let s4 = on(s3, v.len());
    super::expr_laws::lemma_enclosed(inp, s1, msb);
    super::expr_laws::lemma_enclosed(inp, s3, lsb);
    assert(super::state::bump(inp, s) == s1);
    assert(super::state::upto(inp, s1, s2) == s2);
    assert(super::state::bump(inp, s2) == s3);
    assert(super::state::skip_if(inp, s4, TokenKind::RBracket) == on(s, dimension(msb, lsb).len()));
}

proof fn lemma_dispatch(inp: Input, s: PState)
    requires
        super::state::ok(inp, s),
    ensures
        at(inp, s.pos) == TokenKind::Assign && super::items::p_assign(inp, s).0 is Some
            ==> super::module::p_module_item(inp, s) == (
            seq![super::items::p_assign(inp, s).0->0],
            super::items::p_assign(inp, s).1,
        ),
        (at(inp, s.pos) == TokenKind::Wire || at(inp, s.pos) == TokenKind::Reg || at(inp, s.pos)
            == TokenKind::Logic || at(inp, s.pos) == TokenKind::Integer) && super::items::p_net(
            inp,
            s,
        ).0 is Some ==> super::module::p_module_item(inp, s) == (
            seq![super::items::p_net(inp, s).0->0],
            super::items::p_net(inp, s).1,
        ),
        at(inp, s.pos) == TokenKind::Identifier && super::items::p_instance(inp, s).0 is Some
            ==> super::module::p_module_item(inp, s) == (
            seq![super::items::p_instance(inp, s).0->0],
            super::items::p_instance(inp, s).1,
        ),
{
}

#[verifier::spinoff_prover]
proof fn lemma_assign(inp: Input, s: PState, t: SynTarget, e: SynExpr, u: PState)
    requires
        super::state::ok(inp, s),
        at(inp, s.pos) == TokenKind::Assign,
        at(inp, s.pos + 1) == TokenKind::Identifier,
        super::stmt::p_target(inp, on(s, 2), inp.toks[s.pos + 1].lexeme) == (t, u),
        inside(inp, u),
        at(inp, u.pos) == TokenKind::Eq,
        holds(inp, u.pos + 1, e),
        at(inp, u.pos + 1 + size(e)) == TokenKind::Semicolon,
    ensures
        super::items::p_assign(inp, s) == (
            Some(
                SynItem::Assign {
                    target: t,
                    expr: e,
                    range: (
                        inp.toks[s.pos].offset as u32,
                        inp.toks[u.pos + 1 + size(e)].end as u32,
                    ),
                },
            ),
            on(u, size(e) + 2),
        ),
{
    lemma_bump(inp, s);
    lemma_bump(inp, on(s, 1));
    lemma_bump(inp, u);
    lemma_holds(inp, on(u, 1), e);
    let v = on(on(u, 1), size(e));
    lemma_bump(inp, v);
    assert(on(v, 1) == on(u, size(e) + 2));
    assert(super::state::past(inp, v, TokenKind::Semicolon) == on(v, 1));
    assert(on(on(s, 1), 1) == on(s, 2));
}

/// A continuous assignment, with the extent from its keyword to its semicolon.
#[verifier::spinoff_prover]
pub proof fn law_continuous_assignment(inp: Input, s: PState, t: SynTarget, e: SynExpr, u: PState)
    requires
        super::state::ok(inp, s),
        at(inp, s.pos) == TokenKind::Assign,
        at(inp, s.pos + 1) == TokenKind::Identifier,
        super::stmt::p_target(inp, on(s, 2), inp.toks[s.pos + 1].lexeme) == (t, u),
        inside(inp, u),
        at(inp, u.pos) == TokenKind::Eq,
        holds(inp, u.pos + 1, e),
        at(inp, u.pos + 1 + size(e)) == TokenKind::Semicolon,
    ensures
        super::module::p_module_item(inp, s) == (
            seq![
                SynItem::Assign {
                    target: t,
                    expr: e,
                    range: (
                        inp.toks[s.pos].offset as u32,
                        inp.toks[u.pos + 1 + size(e)].end as u32,
                    ),
                },
            ],
            on(u, size(e) + 2),
        ),
{
    lemma_assign(inp, s, t, e, u);
    lemma_dispatch(inp, s);
}

/// The kind of net that a keyword declares; `reg` is the kind of all but wires.
pub open spec fn net_kind(k: TokenKind) -> NetKind {
    if k == TokenKind::Wire {
        NetKind::Wire
    } else {
        NetKind::Reg
    }
}

#[verifier::spinoff_prover]
proof fn lemma_net(
    inp: Input,
    s: PState,
    signed: bool,
    dim: Option<(SynExpr, SynExpr)>,
    names: Seq<Seq<char>>,
    stems: Seq<(Seq<char>, SynExpr, SynExpr)>,
    t: PState,
)
    requires
        super::state::ok(inp, s),
        at(inp, s.pos) == TokenKind::Wire || at(inp, s.pos) == TokenKind::Reg || at(inp, s.pos)
            == TokenKind::Logic || at(inp, s.pos) == TokenKind::Integer,
        at(inp, s.pos) == TokenKind::Integer <==> inp.toks[s.pos].lexeme == "integer"@,
        names.len() > 0,
        super::items::p_net_names(inp, behind_dimension(s, dim, signed), Seq::empty(), Seq::empty()) == (
            names,
            stems,
            t,
        ),
        signed == (at(inp, s.pos + 1) == TokenKind::Signed),
        dimension_here(inp, behind_sign(s, signed).pos, dim),
        inside(inp, t),
        at(inp, t.pos) == TokenKind::Semicolon,
    ensures
        super::items::p_net(inp, s) == (
            Some(
                SynItem::NetDecl {
                    kind: net_kind(at(inp, s.pos)),
                    packed_dim: dim,
                    width: if at(inp, s.pos) == TokenKind::Integer && dim is None {
                        32
                    } else {
                        1
                    },
                    names,
                    unpacked_stems: stems,
                    decl_dir: None,
                },
            ),
            on(t, 1),
        ),
{
    lemma_bump(inp, s);
    lemma_bump(inp, t);
    assert(super::state::past(inp, t, TokenKind::Semicolon) == on(t, 1));
    if signed {
        lemma_bump(inp, on(s, 1));
        assert(on(on(s, 1), 1) == on(s, 2));
    }
    if let Some((msb, lsb)) = dim {
        lemma_dimension(inp, behind_sign(s, signed), msb, lsb);
    }
}

/// A declaration of nets: its keyword gives their kind, a range their packed dimension, and
/// an `integer` without a range has 32 bits.
#[verifier::spinoff_prover]
pub proof fn law_net_declaration(
    inp: Input,
    s: PState,
    signed: bool,
    dim: Option<(SynExpr, SynExpr)>,
    names: Seq<Seq<char>>,
    stems: Seq<(Seq<char>, SynExpr, SynExpr)>,
    t: PState,
)
    requires
        super::state::ok(inp, s),
        at(inp, s.pos) == TokenKind::Wire || at(inp, s.pos) == TokenKind::Reg || at(inp, s.pos)
            == TokenKind::Logic || at(inp, s.pos) == TokenKind::Integer,
        at(inp, s.pos) == TokenKind::Integer <==> inp.toks[s.pos].lexeme == "integer"@,
        names.len() > 0,
        super::items::p_net_names(inp, behind_dimension(s, dim, signed), Seq::empty(), Seq::empty()) == (
            names,
            stems,
            t,
        ),
        signed == (at(inp, s.pos + 1) == TokenKind::Signed),
        dimension_here(inp, behind_sign(s, signed).pos, dim),
        inside(inp, t),
        at(inp, t.pos) == TokenKind::Semicolon,
    ensures
        super::module::p_module_item(inp, s) == (
            seq![
                SynItem::NetDecl {
                    kind: net_kind(at(inp, s.pos)),
                    packed_dim: dim,
                    width: if at(inp, s.pos) == TokenKind::Integer && dim is None {
                        32
                    } else {
                        1
                    },
                    names,
                    unpacked_stems: stems,
                    decl_dir: None,
                },
            ],
            on(t, 1),
        ),
{
    lemma_net(inp, s, signed, dim, names, stems, t);
    lemma_dispatch(inp, s);
}

/// The state behind a keyword, an optional `signed` and an optional dimension.
pub open spec fn behind_dimension(
    s: PState,
    dim: Option<(SynExpr, SynExpr)>,
    signed: bool,
) -> PState {
    match dim {
        Some((msb, lsb)) => on(behind_sign(s, signed), dimension(msb, lsb).len()),
        None => behind_sign(s, signed),
    }
}

/// The state behind a keyword and an optional `signed`.
pub open spec fn behind_sign(s: PState, signed: bool) -> PState {
    if signed {
        on(s, 2)
    } else {
        on(s, 1)
    }
}

/// The optional dimension stands here.
pub open spec fn dimension_here(inp: Input, i: int, dim: Option<(SynExpr, SynExpr)>) -> bool {
    match dim {
        Some((msb, lsb)) => super::expr_laws::writable(msb) && super::expr_laws::writable(lsb)
            && super::expr_laws::spells(inp, i, dimension(msb, lsb)),
        None => at(inp, i) != TokenKind::LBracket && 0 <= i < inp.toks.len(),
    }
}

/// A declaration of a direction inside a module declares wires with that direction.
#[verifier::spinoff_prover]
pub proof fn law_direction_declaration(
    inp: Input,
    s: PState,
    signed: bool,
    dim: Option<(SynExpr, SynExpr)>,
    names: Seq<Seq<char>>,
    stems: Seq<(Seq<char>, SynExpr, SynExpr)>,
    t: PState,
)
    requires
        super::state::ok(inp, s),
        at(inp, s.pos) == TokenKind::Input || at(inp, s.pos) == TokenKind::Output || at(inp, s.pos)
            == TokenKind::Inout,
        names.len() > 0,
        super::items::p_net_names(inp, behind_dimension(s, dim, signed), Seq::empty(), Seq::empty()) == (
            names,
            stems,
            t,
        ),
        signed == (at(inp, s.pos + 1) == TokenKind::Signed),
        dimension_here(inp, behind_sign(s, signed).pos, dim),
        inside(inp, t),
        at(inp, t.pos) == TokenKind::Semicolon,
    ensures
        super::module::p_module_item(inp, s) == (
            seq![
                SynItem::NetDecl {
                    kind: NetKind::Wire,
                    packed_dim: dim,
                    width: 1,
                    names,
                    unpacked_stems: stems,
                    decl_dir: Some(inp.toks[s.pos].lexeme),
                },
            ],
            on(t, 1),
        ),
{
    lemma_bump(inp, s);
    lemma_bump(inp, t);
    assert(super::state::past(inp, t, TokenKind::Semicolon) == on(t, 1));
    if signed {
        lemma_bump(inp, on(s, 1));
        assert(on(on(s, 1), 1) == on(s, 2));
    }
    if let Some((msb, lsb)) = dim {
        lemma_dimension(inp, behind_sign(s, signed), msb, lsb);
    }
}

/// One name of a declaration: with a range behind it, it is an array of words; with a comma
/// behind that, more names follow.
#[verifier::spinoff_prover]
pub proof fn law_declared_name(
    inp: Input,
    s: PState,
    names: Seq<Seq<char>>,
    stems: Seq<(Seq<char>, SynExpr, SynExpr)>,
    msb: SynExpr,
    lsb: SynExpr,
    array: bool,
)
    requires
        super::state::ok(inp, s),
        at(inp, s.pos) == TokenKind::Identifier,
        array ==> super::expr_laws::writable(msb) && super::expr_laws::writable(lsb)
            && super::expr_laws::spells(inp, s.pos + 1, dimension(msb, lsb)),
        !array ==> at(inp, s.pos + 1) != TokenKind::LBracket,
    ensures
        ({
            let name = inp.toks[s.pos].lexeme;
            let t = if array {
                on(s, dimension(msb, lsb).len() + 1)
            } else {
                on(s, 1)
            };
            let words = if array {
                stems.push((name, msb, lsb))
            } else {
                stems
            };
            if at(inp, t.pos) == TokenKind::Comma {
                super::items::p_net_names(inp, s, names, stems) == super::items::p_net_names(
                    inp,
                    on(t, 1),
                    names.push(name),
                    words,
                )
            } else {
                super::items::p_net_names(inp, s, names, stems) == (names.push(name), words, t)
            }
        }),
{
    lemma_bump(inp, s);
    let t = if array {
        on(s, dimension(msb, lsb).len() + 1)
    } else {
        on(s, 1)
    };
    if array {
        lemma_dimension(inp, on(s, 1), msb, lsb);
        assert(on(on(s, 1), dimension(msb, lsb).len()) == t);
    }
    assert(super::stmt::beyond(inp, s, t) == t);
    if at(inp, t.pos) == TokenKind::Comma {
        lemma_bump(inp, t);
    }
}

#[verifier::spinoff_prover]
proof fn lemma_instance(
    inp: Input,
    s: PState,
    params: Seq<(Seq<char>, SynExpr)>,
    conns: Seq<SynConn>,
    p: PState,
    t: PState,
    parameterized: bool,
)
    requires
        super::state::ok(inp, s),
        at(inp, s.pos) == TokenKind::Identifier,
        parameterized ==> at(inp, s.pos + 1) == TokenKind::Hash && at(inp, s.pos + 2)
            == TokenKind::LParen && super::items::p_inst_params(inp, on(s, 3), Seq::empty()) == (
            params,
            p,
        ) && inside(inp, p) && at(inp, p.pos) == TokenKind::RParen,
        !parameterized ==> params.len() == 0 && p == s,
        at(inp, p.pos + 1) == TokenKind::Identifier,
        at(inp, p.pos + 2) == TokenKind::LParen,
        super::items::p_conns(inp, on(p, 3), Seq::empty()) == (conns, t),
        inside(inp, t),
        at(inp, t.pos) == TokenKind::RParen,
        at(inp, t.pos + 1) == TokenKind::Semicolon,
    ensures
        super::items::p_instance(inp, s) == (
            Some(
                SynItem::Instance {
                    module_name: inp.toks[s.pos].lexeme,
                    parameter_assignments: params,
                    instance_name: inp.toks[p.pos + 1].lexeme,
                    connections: conns,
                },
            ),
            on(t, 2),
        ),
{
    lemma_bump(inp, s);
    if parameterized {
        lemma_bump(inp, on(s, 1));
        lemma_bump(inp, on(s, 2));
        assert(on(on(s, 1), 1) == on(s, 2));
        assert(on(on(s, 2), 1) == on(s, 3));
        lemma_bump(inp, p);
    } else {
        assert(params =~= Seq::empty());
    }
    lemma_bump(inp, on(p, 1));
    lemma_bump(inp, on(p, 2));
    assert(on(on(p, 1), 1) == on(p, 2));
    assert(on(on(p, 2), 1) == on(p, 3));
    lemma_bump(inp, t);
    lemma_bump(inp, on(t, 1));
    assert(on(on(t, 1), 1) == on(t, 2));
    assert(super::state::past(inp, on(t, 1), TokenKind::Semicolon) == on(t, 2));
}

/// An instance: the module's name, the values of its parameters, its own name, and its
/// connections.
#[verifier::spinoff_prover]
pub proof fn law_instance(
    inp: Input,
    s: PState,
    params: Seq<(Seq<char>, SynExpr)>,
    conns: Seq<SynConn>,
    p: PState,
    t: PState,
    parameterized: bool,
)
    requires
        super::state::ok(inp, s),
        at(inp, s.pos) == TokenKind::Identifier,
        parameterized ==> at(inp, s.pos + 1) == TokenKind::Hash && at(inp, s.pos + 2)
            == TokenKind::LParen && super::items::p_inst_params(inp, on(s, 3), Seq::empty()) == (
            params,
            p,
        ) && inside(inp, p) && at(inp, p.pos) == TokenKind::RParen,
        !parameterized ==> params.len() == 0 && p == s,
        at(inp, p.pos + 1) == TokenKind::Identifier,
        at(inp, p.pos + 2) == TokenKind::LParen,
        super::items::p_conns(inp, on(p, 3), Seq::empty()) == (conns, t),
        inside(inp, t),
        at(inp, t.pos) == TokenKind::RParen,
        at(inp, t.pos + 1) == TokenKind::Semicolon,
    ensures
        super::module::p_module_item(inp, s) == (
            seq![
                SynItem::Instance {
                    module_name: inp.toks[s.pos].lexeme,
                    parameter_assignments: params,
                    instance_name: inp.toks[p.pos + 1].lexeme,
                    connections: conns,
                },
            ],
            on(t, 2),
        ),
{
    lemma_instance(inp, s, params, conns, p, t, parameterized);
    lemma_dispatch(inp, s);
}

/// One parameter of an instance, `.name(value)`.
pub proof fn law_instance_parameter(
    inp: Input,
    s: PState,
    so_far: Seq<(Seq<char>, SynExpr)>,
    value: SynExpr,
)
    requires
        super::state::ok(inp, s),
        at(inp, s.pos) == TokenKind::Dot,
        at(inp, s.pos + 1) == TokenKind::Identifier,
        at(inp, s.pos + 2) == TokenKind::LParen,
        holds(inp, s.pos + 3, value),
        at(inp, s.pos + 3 + size(value)) == TokenKind::RParen,
    ensures
        ({
            let t = on(s, size(value) + 4);
            let next = if at(inp, t.pos) == TokenKind::Comma {
                on(t, 1)
            } else {
                t
            };
            super::items::p_inst_params(inp, s, so_far) == super::items::p_inst_params(
                inp,
                next,
                so_far.push((inp.toks[s.pos + 1].lexeme, value)),
            )
        }),
{
    lemma_bump(inp, s);
    lemma_bump(inp, on(s, 1));
    lemma_bump(inp, on(s, 2));
    assert(on(on(s, 1), 1) == on(s, 2));
    assert(on(on(s, 2), 1) == on(s, 3));
    lemma_holds(inp, on(s, 3), value);
    let u = on(s, size(value) + 3);
    assert(on(on(s, 3), size(value)) == u);
    lemma_bump(inp, u);
    let t = on(s, size(value) + 4);
    assert(on(u, 1) == t);
    if at(inp, t.pos) == TokenKind::Comma {
        lemma_bump(inp, t);
        assert(super::stmt::beyond(inp, s, on(t, 1)) == on(t, 1));
    } else {
        assert(super::stmt::beyond(inp, s, t) == t);
    }
}

/// One connection of an instance, by the name of its port or by its place, with the extent of
/// its tokens.
#[verifier::spinoff_prover]
pub proof fn law_connection(
    inp: Input,
    s: PState,
    so_far: Seq<SynConn>,
    e: SynExpr,
    by_name: bool,
)
    requires
        super::state::ok(inp, s),
        by_name ==> at(inp, s.pos) == TokenKind::Dot && at(inp, s.pos + 1) == TokenKind::Identifier
            && at(inp, s.pos + 2) == TokenKind::LParen && holds(inp, s.pos + 3, e) && at(
            inp,
            s.pos + 3 + size(e),
        ) == TokenKind::RParen,
        !by_name ==> holds(inp, s.pos, e) && inp.toks[s.pos + size(e) - 1].end as u32
            >= inp.toks[s.pos].offset as u32,
    ensures
        ({
            let t = if by_name {
                on(s, size(e) + 4)
            } else {
                on(s, size(e))
            };
            let conn = SynConn {
                port_name: if by_name {
                    Some(inp.toks[s.pos + 1].lexeme)
                } else {
                    None
                },
                expr: e,
                range: (inp.toks[s.pos].offset as u32, inp.toks[t.pos - 1].end as u32),
            };
            if at(inp, t.pos) == TokenKind::Comma {
                super::items::p_conns(inp, s, so_far) == super::items::p_conns(
                    inp,
                    on(t, 1),
                    so_far.push(conn),
                )
            } else {
                super::items::p_conns(inp, s, so_far) == (so_far.push(conn), t)
            }
        }),
{
    let t = if by_name {
        on(s, size(e) + 4)
    } else {
        on(s, size(e))
    };
    if by_name {
        lemma_bump(inp, s);
        lemma_bump(inp, on(s, 1));
        lemma_bump(inp, on(s, 2));
        assert(on(on(s, 1), 1) == on(s, 2));
        assert(on(on(s, 2), 1) == on(s, 3));
        lemma_holds(inp, on(s, 3), e);
        let u = on(s, size(e) + 3);
        assert(on(on(s, 3), size(e)) == u);
        lemma_bump(inp, u);
        assert(on(u, 1) == t);
    } else {
        lemma_holds(inp, s, e);
    }
    assert(super::stmt::beyond(inp, s, t) == t);
    if at(inp, t.pos) == TokenKind::Comma {
        lemma_bump(inp, t);
    }
}

/// Processes: an `initial` one has a body, an `always` one a sensitivity and a body.
pub proof fn law_processes(inp: Input, s: PState, sens: SynSens, u: PState)
    requires
        super::state::ok(inp, s),
    ensures
        at(inp, s.pos) == TokenKind::Initial ==> ({
            let (body, t) = super::stmt::p_block(inp, on(s, 1));
            super::module::p_module_item(inp, s) == (seq![SynItem::Initial { body }], t)
        }),
        at(inp, s.pos) == TokenKind::Always && at(inp, s.pos + 1) == TokenKind::At
            && super::stmt::p_sensitivity(inp, on(s, 1)) == (sens, u) ==> ({
            let (body, t) = super::stmt::p_block(inp, u);
            super::module::p_module_item(inp, s) == (
                seq![SynItem::Always { sensitivity: sens, body }],
                t,
            )
        }),
{
    if at(inp, s.pos) == TokenKind::Initial || at(inp, s.pos) == TokenKind::Always {
        lemma_bump(inp, s);
    }
}

/// A process that waits: the delay comes first in its body, and the statement after it.
pub proof fn law_delayed_process(
    inp: Input,
    s: PState,
    d: crate::delay_rational::DelayRational,
    u: PState,
    stmts: Seq<SynStmt>,
    t: PState,
)
    requires
        super::state::ok(inp, s),
        at(inp, s.pos) == TokenKind::Always,
        at(inp, s.pos + 1) == TokenKind::Hash,
        super::stmt::p_delay(inp, on(s, 1)) == (d, u),
        super::stmt::p_stmt(inp, u) == (Some(stmts), t),
        inside(inp, u) && inside(inp, t),
        u.pos > 0 && t.pos > 0,
    ensures
        ({
            let first = (inp.toks[s.pos + 1].offset as u32, inp.toks[u.pos - 1].end as u32);
            let after = (inp.toks[u.pos].offset as u32, inp.toks[t.pos - 1].end as u32);
            super::module::p_module_item(inp, s) == (
                seq![
                    SynItem::Always {
                        sensitivity: SynSens::Star,
                        body: SynBlock {
                            stmts: seq![SynStmt::Delay(d)] + stmts,
                            ranges: seq![first] + Seq::new(stmts.len(), |i: int| after),
                        },
                    },
                ],
                t,
            )
        }),
{
    lemma_bump(inp, s);
    let first = (inp.toks[s.pos + 1].offset as u32, inp.toks[u.pos - 1].end as u32);
    assert(Seq::<SynStmt>::empty().push(SynStmt::Delay(d)) =~= seq![SynStmt::Delay(d)]);
    assert(Seq::<(u32, u32)>::empty().push(first) =~= seq![first]);
}

/// Parameters of a module's body: every name with its value, up to the semicolon.
pub proof fn law_parameters(inp: Input, s: PState, pairs: Seq<(Seq<char>, SynExpr)>, t: PState)
    requires
        super::state::ok(inp, s),
        at(inp, s.pos) == TokenKind::Parameter || at(inp, s.pos) == TokenKind::Localparam,
        at(inp, s.pos + 1) == TokenKind::Identifier,
        super::items::p_param_pairs(inp, on(s, 1), Seq::empty()) == (Some(pairs), t),
    ensures
        super::module::p_module_item(inp, s) == (
            seq![SynItem::LocalParam { assignments: pairs }],
            t,
        ),
{
    lemma_bump(inp, s);
}

/// One parameter, `name = value`, with a comma or the semicolon behind it.
pub proof fn law_parameter(inp: Input, s: PState, so_far: Seq<(Seq<char>, SynExpr)>, value: SynExpr)
    requires
        super::state::ok(inp, s),
        at(inp, s.pos) == TokenKind::Identifier,
        at(inp, s.pos + 1) == TokenKind::Eq,
        holds(inp, s.pos + 2, value),
    ensures
        ({
            let t = on(s, size(value) + 2);
            let all = so_far.push((inp.toks[s.pos].lexeme, value));
            &&& at(inp, t.pos) == TokenKind::Comma ==> super::items::p_param_pairs(inp, s, so_far)
                == super::items::p_param_pairs(inp, on(t, 1), all)
            &&& at(inp, t.pos) == TokenKind::Semicolon ==> super::items::p_param_pairs(
                inp,
                s,
                so_far,
            ) == (Some(all), on(t, 1))
            &&& at(inp, t.pos) == TokenKind::Comma ==> super::module::p_header_params(
                inp,
                s,
                so_far,
            ) == super::module::p_header_params(inp, on(t, 1), all)
            &&& at(inp, t.pos) == TokenKind::RParen ==> super::module::p_header_params(
                inp,
                s,
                so_far,
            ) == (all, t)
        }),
{
    lemma_bump(inp, s);
    lemma_bump(inp, on(s, 1));
    assert(on(on(s, 1), 1) == on(s, 2));
    lemma_holds(inp, on(s, 2), value);
    let t = on(s, size(value) + 2);
    assert(on(on(s, 2), size(value)) == t);
    assert(super::stmt::beyond(inp, s, t) == t);
    if at(inp, t.pos) == TokenKind::Comma || at(inp, t.pos) == TokenKind::Semicolon {
        lemma_bump(inp, t);
    }
}

/// The keyword in front of a parameter in a module's header changes nothing.
pub proof fn law_header_parameter_keyword(inp: Input, s: PState, so_far: Seq<(Seq<char>, SynExpr)>)
    requires
        super::state::ok(inp, s),
        at(inp, s.pos) == TokenKind::Parameter,
        at(inp, s.pos + 1) == TokenKind::Identifier,
        at(inp, s.pos + 2) == TokenKind::Eq,
    ensures
        ({
            let (e, t) = super::expr::p_expr(inp, on(s, 3), 0);
            t.pos > s.pos + 3 ==> super::module::p_header_params(inp, s, so_far)
                == super::module::p_header_params(inp, on(s, 1), so_far)
        }),
{
    lemma_bump(inp, s);
    lemma_bump(inp, on(s, 1));
    lemma_bump(inp, on(s, 2));
    assert(on(on(s, 1), 1) == on(s, 2));
    assert(on(on(s, 2), 1) == on(s, 3));
    let (e, t) = super::expr::p_expr(inp, on(s, 3), 0);
    if t.pos > s.pos + 3 {
        assert(super::stmt::beyond(inp, s, t) == super::stmt::beyond(inp, on(s, 1), t));
    }
}

/// The width of a port: the distance of its bounds, and one.
pub proof fn law_port_width(msb: SynExpr, lsb: SynExpr, params: Seq<(Seq<char>, SynExpr)>, m: i64, l: i64)
    requires
        crate::expr_const::param_value(msb, crate::expr_const::param_values(params)) == Some(m),
        crate::expr_const::param_value(lsb, crate::expr_const::param_values(params)) == Some(l),
    ensures
        ({
            let w = super::module::port_width(msb, lsb, params);
            &&& m >= l && m - l < usize::MAX ==> w == m - l + 1
            &&& l >= m && l - m < usize::MAX ==> w == l - m + 1
        }),
{
}

/// A port with its direction, which may be followed by a net type and a range that gives its
/// width.
#[verifier::spinoff_prover]
pub proof fn law_port(
    inp: Input,
    s: PState,
    params: Seq<(Seq<char>, SynExpr)>,
    before: Option<Seq<char>>,
    width: usize,
    so_far: Seq<SynPort>,
    typed: bool,
    signed: bool,
    dim: Option<(SynExpr, SynExpr)>,
)
    requires
        super::state::ok(inp, s),
        at(inp, s.pos) == TokenKind::Input || at(inp, s.pos) == TokenKind::Output || at(inp, s.pos)
            == TokenKind::Inout,
        typed ==> at(inp, s.pos + 1) == TokenKind::Wire || at(inp, s.pos + 1) == TokenKind::Reg
            || at(inp, s.pos + 1) == TokenKind::Logic,
        !typed ==> at(inp, s.pos + 1) != TokenKind::Wire && at(inp, s.pos + 1) != TokenKind::Reg
            && at(inp, s.pos + 1) != TokenKind::Logic,
        signed == (at(inp, type_end(s, typed).pos) == TokenKind::Signed),
        dimension_here(inp, sign_end(s, typed, signed).pos, dim),
        at(inp, range_end(s, typed, signed, dim).pos) == TokenKind::Identifier,
    ensures
        ({
            let u = range_end(s, typed, signed, dim);
            let direction = Some(inp.toks[s.pos].lexeme);
            let bits = match dim {
                Some((msb, lsb)) => super::module::port_width(msb, lsb, params),
                None => 1,
            };
            let all = so_far.push(
                SynPort { direction, name: inp.toks[u.pos].lexeme, width: bits },
            );
            if at(inp, u.pos + 1) == TokenKind::Comma {
                super::module::p_ports(inp, s, params, before, width, so_far)
                    == super::module::p_ports(inp, on(u, 2), params, direction, bits, all)
            } else {
                super::module::p_ports(inp, s, params, before, width, so_far) == (all, on(u, 1))
            }
        }),
{
    lemma_port_type(inp, s, params, typed, signed, dim);
    lemma_port_step(inp, s, params, before, width, so_far);
}

proof fn lemma_port_step(
    inp: Input,
    s: PState,
    params: Seq<(Seq<char>, SynExpr)>,
    before: Option<Seq<char>>,
    width: usize,
    so_far: Seq<SynPort>,
)
    requires
        super::state::ok(inp, s),
        at(inp, s.pos) == TokenKind::Input || at(inp, s.pos) == TokenKind::Output || at(inp, s.pos)
            == TokenKind::Inout,
        s.pos < super::module::p_port_type(inp, s, params).2.pos < inp.toks.len(),
        at(inp, super::module::p_port_type(inp, s, params).2.pos) == TokenKind::Identifier,
    ensures
        ({
            let (direction, bits, u) = super::module::p_port_type(inp, s, params);
            let all = so_far.push(
                SynPort { direction, name: inp.toks[u.pos].lexeme, width: bits },
            );
            if at(inp, u.pos + 1) == TokenKind::Comma {
                super::module::p_ports(inp, s, params, before, width, so_far)
                    == super::module::p_ports(inp, on(u, 2), params, direction, bits, all)
            } else {
                super::module::p_ports(inp, s, params, before, width, so_far) == (all, on(u, 1))
            }
        }),
{
    let u = super::module::p_port_type(inp, s, params).2;
    assert(super::state::upto(inp, s, u) == u);
    lemma_bump(inp, u);
    if at(inp, u.pos + 1) == TokenKind::Comma {
        lemma_bump(inp, on(u, 1));
        assert(on(on(u, 1), 1) == on(u, 2));
    }
}

proof fn lemma_port_type(
    inp: Input,
    s: PState,
    params: Seq<(Seq<char>, SynExpr)>,
    typed: bool,
    signed: bool,
    dim: Option<(SynExpr, SynExpr)>,
)
    requires
        super::state::ok(inp, s),
        at(inp, s.pos) != TokenKind::Eof,
        typed ==> at(inp, s.pos + 1) == TokenKind::Wire || at(inp, s.pos + 1) == TokenKind::Reg
            || at(inp, s.pos + 1) == TokenKind::Logic,
        !typed ==> at(inp, s.pos + 1) != TokenKind::Wire && at(inp, s.pos + 1) != TokenKind::Reg
            && at(inp, s.pos + 1) != TokenKind::Logic,
        signed == (at(inp, type_end(s, typed).pos) == TokenKind::Signed),
        dimension_here(inp, sign_end(s, typed, signed).pos, dim),
    ensures
        super::module::p_port_type(inp, s, params) == (
            Some(inp.toks[s.pos].lexeme),
            match dim {
                Some((msb, lsb)) => super::module::port_width(msb, lsb, params),
                None => 1,
            },
            range_end(s, typed, signed, dim),
        ),
        s.pos < range_end(s, typed, signed, dim).pos < inp.toks.len(),
{
    let v = type_end(s, typed);
    lemma_bump(inp, s);
    if typed {
        lemma_bump(inp, on(s, 1));
        assert(on(on(s, 1), 1) == v);
    }
    if signed {
        lemma_bump(inp, v);
    }
    if let Some((msb, lsb)) = dim {
        lemma_dimension(inp, sign_end(s, typed, signed), msb, lsb);
    }
}

/// The state behind a direction and an optional net type.
pub open spec fn type_end(s: PState, typed: bool) -> PState {
    if typed {
        on(s, 2)
    } else {
        on(s, 1)
    }
}

/// The state behind a direction, an optional net type and an optional range.
pub open spec fn range_end(
    s: PState,
    typed: bool,
    signed: bool,
    dim: Option<(SynExpr, SynExpr)>,
) -> PState {
    match dim {
        Some((msb, lsb)) => on(sign_end(s, typed, signed), dimension(msb, lsb).len()),
        None => sign_end(s, typed, signed),
    }
}

/// The state behind a direction, an optional net type and an optional `signed`.
pub open spec fn sign_end(s: PState, typed: bool, signed: bool) -> PState {
    if signed {
        on(type_end(s, typed), 1)
    } else {
        type_end(s, typed)
    }
}

/// A port without a direction has the direction and the width of the one before it.
pub proof fn law_repeated_port(
    inp: Input,
    s: PState,
    params: Seq<(Seq<char>, SynExpr)>,
    direction: Seq<char>,
    width: usize,
    so_far: Seq<SynPort>,
)
    requires
        super::state::ok(inp, s),
        at(inp, s.pos) == TokenKind::Identifier,
    ensures
        ({
            let port = SynPort {
                direction: Some(direction),
                name: inp.toks[s.pos].lexeme,
                width,
            };
            let all = so_far.push(port);
            let ports = super::module::p_ports(inp, s, params, Some(direction), width, so_far);
            if at(inp, s.pos + 1) == TokenKind::Comma {
                ports == super::module::p_ports(inp, on(s, 2), params, Some(direction), width, all)
            } else {
                ports == (all, on(s, 1))
            }
        }),
{
    lemma_bump(inp, s);
    assert(super::state::upto(inp, s, s) == s);
    if at(inp, s.pos + 1) == TokenKind::Comma {
        lemma_bump(inp, on(s, 1));
        assert(on(on(s, 1), 1) == on(s, 2));
    }
}

/// A port without a direction, where none came before it, has none, and one bit.
pub proof fn law_bare_port(
    inp: Input,
    s: PState,
    params: Seq<(Seq<char>, SynExpr)>,
    width: usize,
    so_far: Seq<SynPort>,
)
    requires
        super::state::ok(inp, s),
        at(inp, s.pos) == TokenKind::Identifier,
        at(inp, s.pos + 1) != TokenKind::Comma,
    ensures
        super::module::p_ports(inp, s, params, None, width, so_far) == (
            so_far.push(
                SynPort { direction: None, name: inp.toks[s.pos].lexeme, width: 1 },
            ),
            on(s, 1),
        ),
{
    lemma_bump(inp, s);
    assert(super::state::upto(inp, s, s) == s);
}

/// A module: its name, the parameters and ports of its header, and its items up to
/// `endmodule`. It knows no function or task of another module.
#[verifier::spinoff_prover]
pub proof fn law_module(
    inp: Input,
    s: PState,
    params: Seq<(Seq<char>, SynExpr)>,
    p: PState,
    ports: Seq<SynPort>,
    q: PState,
    items: Seq<SynItem>,
    t: PState,
    parameterized: bool,
)
    requires
        super::state::ok(inp, s),
        at(inp, s.pos) == TokenKind::Module,
        at(inp, s.pos + 1) == TokenKind::Identifier,
        parameterized ==> at(inp, s.pos + 2) == TokenKind::Hash && at(inp, s.pos + 3)
            == TokenKind::LParen && super::module::p_header_params(
            inp,
            on(forgetful(s), 4),
            Seq::empty(),
        ) == (params, p) && inside(inp, p) && at(inp, p.pos) == TokenKind::RParen,
        !parameterized ==> params.len() == 0 && p == on(forgetful(s), 1),
        at(inp, p.pos + 1) == TokenKind::LParen,
        super::module::p_ports(inp, on(p, 2), params, None, 1, Seq::empty()) == (ports, q),
        inside(inp, q),
        at(inp, q.pos) == TokenKind::RParen,
        at(inp, q.pos + 1) == TokenKind::Semicolon,
        super::module::p_module_items(inp, on(q, 2), Seq::empty()) == (items, t),
        inside(inp, t),
        at(inp, t.pos) == TokenKind::Endmodule,
    ensures
        super::module::p_module(inp, s) == (
            Some(
                SynModule {
                    name: inp.toks[s.pos + 1].lexeme,
                    ports,
                    module_parameters: params,
                    path: inp.path,
                    items,
                },
            ),
            on(t, 1),
        ),
{
    let f = forgetful(s);
    lemma_bump(inp, f);
    lemma_bump(inp, on(f, 1));
    assert(on(on(f, 1), 1) == on(f, 2));
    assert(on(on(f, 2), 2) == on(f, 4));
    if !parameterized {
        assert(on(p, 1) == on(f, 2));
    }
    lemma_module_params(inp, on(f, 2), params, p, parameterized);
    lemma_bump(inp, on(p, 1));
    assert(on(on(p, 1), 1) == on(p, 2));
    lemma_bump(inp, q);
    lemma_bump(inp, on(q, 1));
    assert(on(on(q, 1), 1) == on(q, 2));
    assert(super::module::p_header_end(inp, on(q, 1)) == on(q, 1));
    lemma_bump(inp, t);
}

proof fn lemma_module_params(
    inp: Input,
    s: PState,
    params: Seq<(Seq<char>, SynExpr)>,
    p: PState,
    parameterized: bool,
)
    requires
        super::state::ok(inp, s),
        parameterized ==> at(inp, s.pos) == TokenKind::Hash && at(inp, s.pos + 1)
            == TokenKind::LParen && super::module::p_header_params(inp, on(s, 2), Seq::empty()) == (
            params,
            p,
        ) && inside(inp, p) && at(inp, p.pos) == TokenKind::RParen,
        !parameterized ==> params.len() == 0 && on(p, 1) == s && at(inp, s.pos) != TokenKind::Hash,
    ensures
        super::module::p_module_params(inp, s) == (params, on(p, 1)),
{
    if parameterized {
        lemma_bump(inp, s);
        lemma_bump(inp, on(s, 1));
        assert(on(on(s, 1), 1) == on(s, 2));
        lemma_bump(inp, p);
    } else {
        assert(params =~= Seq::empty());
    }
}

/// The state without functions and tasks.
pub open spec fn forgetful(s: PState) -> PState {
    PState { pos: s.pos, diags: s.diags, funcs: Seq::empty(), tasks: Seq::empty() }
}

/// The items of a module come one after the other, up to `endmodule`.
pub proof fn law_module_items(
    inp: Input,
    s: PState,
    so_far: Seq<SynItem>,
    items: Seq<SynItem>,
    t: PState,
)
    requires
        super::state::ok(inp, s),
        s.pos < t.pos < inp.toks.len(),
    ensures
        at(inp, s.pos) == TokenKind::Endmodule ==> super::module::p_module_items(inp, s, so_far)
            == (so_far, s),
        at(inp, s.pos) != TokenKind::Endmodule && at(inp, s.pos) != TokenKind::Eof
            && super::module::p_module_item(inp, s) == (items, t) ==> super::module::p_module_items(
            inp,
            s,
            so_far,
        ) == super::module::p_module_items(inp, t, so_far + items),
{
    if at(inp, s.pos) != TokenKind::Eof {
        lemma_bump(inp, s);
        assert(super::stmt::beyond(inp, s, t) == t);
    }
}

/// The modules of a file come one after the other, and what is outside them does not count.
pub proof fn law_file(inp: Input, s: PState, so_far: Seq<SynModule>, m: SynModule, t: PState)
    requires
        super::state::ok(inp, s),
        s.pos < t.pos < inp.toks.len(),
    ensures
        at(inp, s.pos) == TokenKind::Module && super::module::p_module(inp, s) == (Some(m), t)
            ==> super::module::p_file(inp, s, so_far) == super::module::p_file(
            inp,
            t,
            so_far.push(m),
        ),
        at(inp, s.pos) != TokenKind::Module && at(inp, s.pos) != TokenKind::Eof
            ==> super::module::p_file(inp, s, so_far) == super::module::p_file(
            inp,
            on(s, 1),
            so_far,
        ),
        at(inp, s.pos) == TokenKind::Eof ==> super::module::p_file(inp, s, so_far) == (so_far, s),
{
    if at(inp, s.pos) == TokenKind::Module {
        lemma_bump(inp, s);
        assert(super::stmt::beyond(inp, s, t) == t);
    }
}

} // verus!
