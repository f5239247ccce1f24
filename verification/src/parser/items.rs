//! Module items that are no generate constructs: declarations, assigns, instances and
//! procedural blocks.
use super::cst::{
    CstBlock, CstModuleItem, CstStmt, Expr, NetKind, PortConnection, Sensitivity, SynConn, SynExpr,
    SynItem, SynSens, SynStmt,
};
use super::state::{Input, PState, Parser};
use crate::lexer::TokenKind;
use crate::text::str_eq;
use vstd::prelude::*;

verus! {

/// `[msb:lsb]` or `[index]`, with the cursor past the opening bracket. A single index
/// stands for both ends.
pub open spec fn p_dimension(inp: Input, s: PState) -> (SynExpr, SynExpr, PState) {
    let (msb, lsb, s1) = super::expr::p_index(inp, s);
    match lsb {
        Some(l) => (msb, *l, s1),
        None => (msb, msb, s1),
    }
}

/// Declared names, each with an optional unpacked dimension.
pub open spec fn p_net_names(
    inp: Input,
    s: PState,
    names: Seq<Seq<char>>,
    stems: Seq<(Seq<char>, SynExpr, SynExpr)>,
) -> (Seq<Seq<char>>, Seq<(Seq<char>, SynExpr, SynExpr)>, PState)
    decreases super::state::ahead(inp, s),
    when super::state::ok(inp, s)
{
    let (stem, s1) = super::state::identifier(inp, s, "expected signal name"@);
    match stem {
        None => (names, stems, s1),
        Some(stem) => {
            let (all, s2) = if super::state::kind(inp, s1) == TokenKind::LBracket {
                let (hi, lo, s2) = p_dimension(inp, super::state::bump(inp, s1));
                (stems.push((stem, hi, lo)), s2)
            } else {
                (stems, s1)
            };
            let s2 = super::stmt::beyond(inp, s, s2);
            if super::state::kind(inp, s2) == TokenKind::Comma {
                p_net_names(inp, super::state::bump(inp, s2), names.push(stem), all)
            } else {
                (names.push(stem), all, s2)
            }
        },
    }
}

/// The rest of a net declaration, after its kind or direction.
pub open spec fn p_net_core(
    inp: Input,
    s: PState,
    kind: NetKind,
    decl_dir: Option<Seq<char>>,
) -> (Option<SynItem>, PState) {
    let is_integer = kind == NetKind::Reg && s.pos > 0 && inp.toks[s.pos - 1].lexeme
        == "integer"@;
    let s1 = super::state::skip_if(inp, s, TokenKind::Signed);
    let (packed_dim, s2) = if super::state::kind(inp, s1) == TokenKind::LBracket {
        let (msb, lsb, s2) = p_dimension(inp, super::state::bump(inp, s1));
        (Some((msb, lsb)), s2)
    } else {
        (None, s1)
    };
    let (names, unpacked_stems, s3) = p_net_names(inp, s2, Seq::empty(), Seq::empty());
    let s4 = super::state::past(inp, s3, TokenKind::Semicolon);
    if names.len() == 0 {
        (None, s4)
    } else {
        (
            Some(
                SynItem::NetDecl {
                    kind,
                    packed_dim,
                    width: if is_integer && packed_dim is None {
                        32
                    } else {
                        1
                    },
                    names,
                    unpacked_stems,
                    decl_dir,
                },
            ),
            s4,
        )
    }
}

/// A declaration that begins with its kind.
pub open spec fn p_net(inp: Input, s: PState) -> (Option<SynItem>, PState) {
    p_net_core(
        inp,
        super::state::bump(inp, s),
        if super::state::kind(inp, s) == TokenKind::Wire {
            NetKind::Wire
        } else {
            NetKind::Reg
        },
        None,
    )
}

/// A declaration that begins with a direction.
pub open spec fn p_directional(inp: Input, s: PState) -> (Option<SynItem>, PState) {
    p_net_core(
        inp,
        super::state::bump(inp, s),
        NetKind::Wire,
        Some(super::state::lexeme(inp, s)),
    )
}

/// End of an assign: that of its semicolon, else of the token before.
pub open spec fn assign_end(inp: Input, s: PState) -> u32 {
    if super::state::kind(inp, s) == TokenKind::Semicolon {
        inp.toks[s.pos].end as u32
    } else {
        super::state::last_end(inp, s)
    }
}

/// End of a named connection: that of its closing parenthesis, else the start of the token
/// that stands there.
pub open spec fn named_end(inp: Input, s: PState) -> u32 {
    if super::state::kind(inp, s) == TokenKind::RParen {
        inp.toks[s.pos].end as u32
    } else {
        super::state::cur_start(inp, s)
    }
}

/// A continuous assign.
pub open spec fn p_assign(inp: Input, s: PState) -> (Option<SynItem>, PState) {
    let (reg, s1) = super::state::identifier(
        inp,
        super::state::bump(inp, s),
        "expected left-hand side of assign"@,
    );
    match reg {
        None => (None, super::state::past(inp, s1, TokenKind::Semicolon)),
        Some(reg) => {
            let (target, s2) = super::stmt::p_target(inp, s1, reg);
            let s3 = super::state::skip_if(inp, s2, TokenKind::Eq);
            let (expr, s4) = super::expr::p_expr(inp, s3, 0);
            (
                Some(
                    SynItem::Assign {
                        target,
                        expr,
                        range: (
                            super::state::cur_start(inp, s),
                            assign_end(inp, s4),
                        ),
                    },
                ),
                super::state::past(inp, s4, TokenKind::Semicolon),
            )
        },
    }
}

/// Parameter assignments `.name(expr)` of an instance; the list ends at the first entry
/// of another form.
pub open spec fn p_inst_params(inp: Input, s: PState, so_far: Seq<(Seq<char>, SynExpr)>) -> (
    Seq<(Seq<char>, SynExpr)>,
    PState,
)
    decreases super::state::ahead(inp, s),
    when super::state::ok(inp, s)
{
    if super::state::kind(inp, s) != TokenKind::Dot {
        (so_far, s)
    } else {
        let (name, s1) = super::state::identifier(
            inp,
            super::state::bump(inp, s),
            "expected parameter name after `.`"@,
        );
        match name {
            None => (so_far, s1),
            Some(name) => if super::state::kind(inp, s1) != TokenKind::LParen {
                (so_far, s1)
            } else {
                let (rhs, s2) = super::expr::p_expr(inp, super::state::bump(inp, s1), 0);
                let s3 = super::state::skip_if(inp, s2, TokenKind::RParen);
                p_inst_params(
                    inp,
                    super::stmt::beyond(
                        inp,
                        s,
                        super::state::skip_if(inp, s3, TokenKind::Comma),
                    ),
                    so_far.push((name, rhs)),
                )
            },
        }
    }
}

/// One port connection; none where a named one has no name.
pub open spec fn p_conn(inp: Input, s: PState) -> (Option<SynConn>, PState) {
    let start = super::state::cur_start(inp, s);
    if super::state::kind(inp, s) == TokenKind::Dot {
        let (port, s1) = super::state::identifier(
            inp,
            super::state::bump(inp, s),
            "expected port name"@,
        );
        match port {
            None => (None, s1),
            Some(port) => {
                let s2 = super::state::skip_if(inp, s1, TokenKind::LParen);
                let (expr, s3) = super::expr::p_expr(inp, s2, 0);
                (
                    Some(
                        SynConn {
                            port_name: Some(port),
                            expr,
                            range: (start, named_end(inp, s3)),
                        },
                    ),
                    super::state::skip_if(inp, s3, TokenKind::RParen),
                )
            },
        }
    } else {
        let (expr, s1) = super::expr::p_expr(inp, s, 0);
        let end = super::state::last_end(inp, s1);
        (
            Some(
                SynConn {
                    port_name: None,
                    expr,
                    range: (
                        start,
                        if end >= start {
                            end
                        } else {
                            start
                        },
                    ),
                },
            ),
            s1,
        )
    }
}

/// Port connections separated by commas.
pub open spec fn p_conns(inp: Input, s: PState, so_far: Seq<SynConn>) -> (Seq<SynConn>, PState)
    decreases super::state::ahead(inp, s),
    when super::state::ok(inp, s)
{
    let k = super::state::kind(inp, s);
    if k == TokenKind::RParen || k == TokenKind::Eof {
        (so_far, s)
    } else {
        let (conn, s1) = p_conn(inp, s);
        let s1 = super::stmt::beyond(inp, s, s1);
        let all = match conn {
            Some(c) => so_far.push(c),
            None => so_far,
        };
        if super::state::kind(inp, s1) == TokenKind::Comma {
            p_conns(inp, super::state::bump(inp, s1), all)
        } else {
            (all, s1)
        }
    }
}

/// An instance, with the cursor on the name of its module.
pub open spec fn p_instance(inp: Input, s: PState) -> (Option<SynItem>, PState) {
    let module_name = super::state::lexeme(inp, s);
    let s1 = super::state::bump(inp, s);
    let (parameter_assignments, s2) = if super::state::kind(inp, s1) != TokenKind::Hash {
        (Seq::empty(), s1)
    } else {
        let s2 = super::state::bump(inp, s1);
        if super::state::kind(inp, s2) != TokenKind::LParen {
            (Seq::empty(), s2)
        } else {
            let (params, s3) = p_inst_params(inp, super::state::bump(inp, s2), Seq::empty());
            (params, super::state::skip_if(inp, s3, TokenKind::RParen))
        }
    };
    let (instance_name, s3) = super::state::identifier(
        inp,
        s2,
        "expected instance name after module name"@,
    );
    match instance_name {
        None => (None, s3),
        Some(instance_name) => {
            let (connections, s4) = if super::state::kind(inp, s3) != TokenKind::LParen {
                (Seq::empty(), s3)
            } else {
                let (conns, s4) = p_conns(inp, super::state::bump(inp, s3), Seq::empty());
                (conns, super::state::skip_if(inp, s4, TokenKind::RParen))
            };
            (
                Some(
                    SynItem::Instance {
                        module_name,
                        parameter_assignments,
                        instance_name,
                        connections,
                    },
                ),
                super::state::past(inp, s4, TokenKind::Semicolon),
            )
        },
    }
}

/// `initial`, `always #delay statement`, or `always` with a sensitivity list.
pub open spec fn p_process(inp: Input, s: PState) -> (SynItem, PState) {
    let s1 = super::state::bump(inp, s);
    if super::state::kind(inp, s) == TokenKind::Initial {
        let (body, s2) = super::stmt::p_block(inp, s1);
        (SynItem::Initial { body }, s2)
    } else if super::state::kind(inp, s1) == TokenKind::Hash {
        let (d, s2) = super::stmt::p_delay(inp, s1);
        let wait = super::cst::empty_block().push(
            SynStmt::Delay(d),
            (super::state::cur_start(inp, s1), super::state::last_end(inp, s2)),
        );
        let (stmts, s3) = super::stmt::p_stmt(inp, s2);
        let body = match stmts {
            Some(stmts) => wait.push_all(
                stmts,
                (super::state::cur_start(inp, s2), super::state::last_end(inp, s3)),
            ),
            None => wait,
        };
        (SynItem::Always { sensitivity: SynSens::Star, body }, s3)
    } else {
        let (sensitivity, s2) = super::stmt::p_sensitivity(inp, s1);
        let (body, s3) = super::stmt::p_block(inp, s2);
        (SynItem::Always { sensitivity, body }, s3)
    }
}

/// `name = expr, …;` after `parameter` or `localparam`.
pub open spec fn p_param_pairs(inp: Input, s: PState, so_far: Seq<(Seq<char>, SynExpr)>) -> (
    Option<Seq<(Seq<char>, SynExpr)>>,
    PState,
)
    decreases super::state::ahead(inp, s),
    when super::state::ok(inp, s)
{
    let (name, s1) = super::state::identifier(inp, s, "expected parameter name"@);
    match name {
        None => (None, s1),
        Some(name) => if super::state::kind(inp, s1) != TokenKind::Eq {
            (
                None,
                super::state::error_here(
                    inp,
                    s1,
                    "expected `=` in parameter/localparam declaration"@,
                ),
            )
        } else {
            let (rhs, s2) = super::expr::p_expr(inp, super::state::bump(inp, s1), 0);
            let s2 = super::stmt::beyond(inp, s, s2);
            if super::state::kind(inp, s2) == TokenKind::Comma {
                p_param_pairs(inp, super::state::bump(inp, s2), so_far.push((name, rhs)))
            } else {
                (
                    Some(so_far.push((name, rhs))),
                    super::state::skip_if(inp, s2, TokenKind::Semicolon),
                )
            }
        },
    }
}

/// Parameter or local parameter declarations, with the cursor past the keyword.
pub open spec fn p_params(inp: Input, s: PState) -> (Option<Seq<(Seq<char>, SynExpr)>>, PState) {
    p_param_pairs(
        inp,
        if super::state::kind(inp, s) == TokenKind::LBracket {
            super::state::past(inp, s, TokenKind::RBracket)
        } else {
            s
        },
        Seq::empty(),
    )
}

/// An item result, by its view.
pub open spec fn item_result(r: Option<CstModuleItem>) -> Option<SynItem> {
    match r {
        Some(i) => Some(i@),
        None => None,
    }
}

/// A parameter list result, by its view.
pub open spec fn pairs_result(r: Option<Vec<(String, Expr)>>) -> Option<Seq<(Seq<char>, SynExpr)>> {
    match r {
        Some(v) => Some(super::cst::pairs_view(v@)),
        None => None,
    }
}

impl<'a> Parser<'a> {
    pub(crate) fn parse_dimension(&mut self) -> (r: (Expr, Expr))
        requires
            old(self).wf(),
        ensures
            final(self).after(*old(self)),
            (r.0@, r.1@, final(self).st()) == p_dimension(old(self).input(), old(self).st()),
    {
        let (msb, lsb) = self.parse_index();
        match lsb {
            Some(lsb) => (msb, lsb),
            None => {
                let lsb = msb.clone();
                (msb, lsb)
            },
        }
    }

    fn parse_net_names(&mut self) -> (r: (Vec<String>, Vec<(String, Expr, Expr)>))
        requires
            old(self).wf(),
        ensures
            final(self).after(*old(self)),
            (super::cst::names_view(r.0@), super::cst::stems_view(r.1@), final(self).st())
                == p_net_names(old(self).input(), old(self).st(), Seq::empty(), Seq::empty()),
    {
        let ghost inp = self.input();
        let ghost s0 = self.st();
        let mut names: Vec<String> = Vec::new();
        let mut stems: Vec<(String, Expr, Expr)> = Vec::new();
        assert(super::cst::names_view(names@) =~= Seq::empty());
        assert(super::cst::stems_view(stems@) =~= Seq::empty());
        loop
            invariant_except_break
                p_net_names(
                    inp,
                    self.st(),
                    super::cst::names_view(names@),
                    super::cst::stems_view(stems@),
                ) == p_net_names(inp, s0, Seq::empty(), Seq::empty()),
            invariant
                self.after(*old(self)),
                inp == old(self).input(),
            ensures
                (super::cst::names_view(names@), super::cst::stems_view(stems@), self.st())
                    == p_net_names(inp, s0, Seq::empty(), Seq::empty()),
            decreases super::state::ahead(inp, self.st()),
        {
            let ghost names0 = super::cst::names_view(names@);
            let ghost stems0 = super::cst::stems_view(stems@);
            let stem = match self.expect_identifier("expected signal name") {
                Some(n) => n,
                None => {
                    break;
                },
            };
            if self.match_kind(TokenKind::LBracket) {
                let (hi, lo) = self.parse_dimension();
                stems.push((stem.clone(), hi, lo));
                assert(super::cst::stems_view(stems@) =~= stems0.push((stem@, hi@, lo@)));
            }
            names.push(stem);
            assert(super::cst::names_view(names@) =~= names0.push(stem@));
            if !self.match_kind(TokenKind::Comma) {
                break;
            }
        }
        (names, stems)
    }

    fn parse_net_decl_core(&mut self, kind: NetKind, decl_dir: Option<String>) -> (r: Option<
        CstModuleItem,
    >)
        requires
            old(self).wf(),
        ensures
            final(self).after(*old(self)),
            (item_result(r), final(self).st()) == p_net_core(
                old(self).input(),
                old(self).st(),
                kind,
                match decl_dir {
                    Some(d) => Some(d@),
                    None => None,
                },
            ),
    {
        let mut width: usize = 1;
        if kind == NetKind::Reg && self.pos > 0 && str_eq(
            self.tokens[self.pos - 1].lexeme.as_str(),
            "integer",
        ) {
            width = 32;
        }
        let _ = self.match_kind(TokenKind::Signed);
        let mut packed_dim: Option<(Expr, Expr)> = None;
        if self.match_kind(TokenKind::LBracket) {
            let (msb, lsb) = self.parse_dimension();
            packed_dim = Some((msb, lsb));
            width = 1;
        }
        let (names, unpacked_stems) = self.parse_net_names();
        self.skip_past(TokenKind::Semicolon);
        if names.len() == 0 {
            None
        } else {
            Some(
                CstModuleItem::NetDecl {
                    kind,
                    packed_dim,
                    width,
                    names,
                    unpacked_stems,
                    decl_dir,
                },
            )
        }
    }

    pub fn parse_net_decl(&mut self) -> (r: Option<CstModuleItem>)
        requires
            old(self).wf(),
        ensures
            final(self).after(*old(self)),
            super::state::kind(old(self).input(), old(self).st()) != TokenKind::Eof
                ==> final(self).pos > old(self).pos,
            (item_result(r), final(self).st()) == p_net(old(self).input(), old(self).st()),
    {
        let kind = if self.at(TokenKind::Wire) {
            NetKind::Wire
        } else {
            NetKind::Reg
        };
        self.bump();
        self.parse_net_decl_core(kind, None)
    }

    pub fn parse_directional_net_decl(&mut self) -> (r: Option<CstModuleItem>)
        requires
            old(self).wf(),
        ensures
            final(self).after(*old(self)),
            super::state::kind(old(self).input(), old(self).st()) != TokenKind::Eof
                ==> final(self).pos > old(self).pos,
            (item_result(r), final(self).st()) == p_directional(
                old(self).input(),
                old(self).st(),
            ),
    {
        let decl_dir = self.lexeme();
        self.bump();
        self.parse_net_decl_core(NetKind::Wire, Some(decl_dir))
    }

    fn assign_end(&self) -> (r: u32)
        requires
            self.wf(),
        ensures
            r == assign_end(self.input(), self.st()),
    {
        if self.at(TokenKind::Semicolon) {
            self.tokens[self.pos].end as u32
        } else {
            self.last_end()
        }
    }

    fn named_end(&self) -> (r: u32)
        requires
            self.wf(),
        ensures
            r == named_end(self.input(), self.st()),
    {
        if self.at(TokenKind::RParen) {
            self.tokens[self.pos].end as u32
        } else {
            self.cur_start()
        }
    }

    pub fn parse_assign(&mut self) -> (r: Option<CstModuleItem>)
        requires
            old(self).wf(),
        ensures
            final(self).after(*old(self)),
            super::state::kind(old(self).input(), old(self).st()) != TokenKind::Eof
                ==> final(self).pos > old(self).pos,
            (item_result(r), final(self).st()) == p_assign(old(self).input(), old(self).st()),
    {
        let start = self.cur_start();
        self.bump();
        let reg = match self.expect_identifier("expected left-hand side of assign") {
            Some(name) => name,
            None => {
                self.skip_past(TokenKind::Semicolon);
                return None;
            },
        };
        let target = self.parse_assign_target_suffix(reg);
        let _ = self.match_kind(TokenKind::Eq);
        let expr = self.parse_expression(0);
        let end = self.assign_end();
        self.skip_past(TokenKind::Semicolon);
        Some(CstModuleItem::Assign { target, expr, range: (start, end) })
    }

    fn parse_inst_params(&mut self) -> (r: Vec<(String, Expr)>)
        requires
            old(self).wf(),
        ensures
            final(self).after(*old(self)),
            (super::cst::pairs_view(r@), final(self).st()) == p_inst_params(
                old(self).input(),
                old(self).st(),
                Seq::empty(),
            ),
    {
        let ghost inp = self.input();
        let ghost s0 = self.st();
        let mut out: Vec<(String, Expr)> = Vec::new();
        assert(super::cst::pairs_view(out@) =~= Seq::empty());
        while self.at(TokenKind::Dot)
            invariant
                self.after(*old(self)),
                inp == old(self).input(),
                s0 == old(self).st(),
                p_inst_params(inp, self.st(), super::cst::pairs_view(out@)) == p_inst_params(
                    inp,
                    s0,
                    Seq::empty(),
                ),
            decreases super::state::ahead(inp, self.st()),
        {
            let ghost before = super::cst::pairs_view(out@);
            self.bump();
            let name = match self.expect_identifier("expected parameter name after `.`") {
                Some(n) => n,
                None => {
                    return out;
                },
            };
            if !self.match_kind(TokenKind::LParen) {
                return out;
            }
            let rhs = self.parse_expression(0);
            let _ = self.match_kind(TokenKind::RParen);
            out.push((name, rhs));
            assert(super::cst::pairs_view(out@) =~= before.push((name@, rhs@)));
            let _ = self.match_kind(TokenKind::Comma);
        }
        out
    }

    fn parse_conn(&mut self) -> (r: Option<PortConnection>)
        requires
            old(self).wf(),
        ensures
            final(self).after(*old(self)),
            super::state::kind(old(self).input(), old(self).st()) != TokenKind::Eof
                ==> final(self).pos > old(self).pos,
            (match r {
                Some(c) => Some(c@),
                None => None,
            }, final(self).st()) == p_conn(old(self).input(), old(self).st()),
    {
        let start = self.cur_start();
        if self.match_kind(TokenKind::Dot) {
            match self.expect_identifier("expected port name") {
                Some(port) => {
                    let _ = self.match_kind(TokenKind::LParen);
                    let expr = self.parse_expression(0);
                    let end = self.named_end();
                    let _ = self.match_kind(TokenKind::RParen);
                    Some(PortConnection { port_name: Some(port), expr, range: (start, end) })
                },
                None => None,
            }
        } else {
            let expr = self.parse_expression(0);
            let mut end = self.last_end();
            if end < start {
                end = start;
            }
            Some(PortConnection { port_name: None, expr, range: (start, end) })
        }
    }

    fn parse_conns(&mut self) -> (r: Vec<PortConnection>)
        requires
            old(self).wf(),
        ensures
            final(self).after(*old(self)),
            (super::cst::conns_view(r@), final(self).st()) == p_conns(
                old(self).input(),
                old(self).st(),
                Seq::empty(),
            ),
    {
        let ghost inp = self.input();
        let ghost s0 = self.st();
        let mut out: Vec<PortConnection> = Vec::new();
        assert(super::cst::conns_view(out@) =~= Seq::empty());
        while !self.at(TokenKind::RParen) && !self.at(TokenKind::Eof)
            invariant_except_break
                p_conns(inp, self.st(), super::cst::conns_view(out@)) == p_conns(
                    inp,
                    s0,
                    Seq::empty(),
                ),
            invariant
                self.after(*old(self)),
                inp == old(self).input(),
            ensures
                (super::cst::conns_view(out@), self.st()) == p_conns(inp, s0, Seq::empty()),
            decreases super::state::ahead(inp, self.st()),
        {
            let ghost before = super::cst::conns_view(out@);
            if let Some(c) = self.parse_conn() {
                out.push(c);
                assert(super::cst::conns_view(out@) =~= before.push(c@));
            }
            if !self.match_kind(TokenKind::Comma) {
                break;
            }
        }
        out
    }

    pub fn parse_instance_like(&mut self) -> (r: Option<CstModuleItem>)
        requires
            old(self).wf(),
        ensures
            final(self).after(*old(self)),
            super::state::kind(old(self).input(), old(self).st()) != TokenKind::Eof
                ==> final(self).pos > old(self).pos,
            (item_result(r), final(self).st()) == p_instance(old(self).input(), old(self).st()),
    {
        let module_name = self.lexeme();
        self.bump();
        let mut parameter_assignments: Vec<(String, Expr)> = Vec::new();
        assert(super::cst::pairs_view(parameter_assignments@) =~= Seq::empty());
        if self.match_kind(TokenKind::Hash) {
            if self.match_kind(TokenKind::LParen) {
                parameter_assignments = self.parse_inst_params();
                let _ = self.match_kind(TokenKind::RParen);
            }
        }
        let instance_name = match self.expect_identifier(
            "expected instance name after module name",
        ) {
            Some(n) => n,
            None => {
                return None;
            },
        };
        let mut connections: Vec<PortConnection> = Vec::new();
        assert(super::cst::conns_view(connections@) =~= Seq::empty());
        if self.match_kind(TokenKind::LParen) {
            connections = self.parse_conns();
            let _ = self.match_kind(TokenKind::RParen);
        }
        self.skip_past(TokenKind::Semicolon);
        Some(
            CstModuleItem::Instance {
                module_name,
                parameter_assignments,
                instance_name,
                connections,
            },
        )
    }

    pub fn parse_always(&mut self) -> (r: CstModuleItem)
        requires
            old(self).wf(),
        ensures
            final(self).after(*old(self)),
            super::state::kind(old(self).input(), old(self).st()) != TokenKind::Eof
                ==> final(self).pos > old(self).pos,
            (r@, final(self).st()) == p_process(old(self).input(), old(self).st()),
    {
        let is_initial = self.at(TokenKind::Initial);
        self.bump();
        if is_initial {
            let body = self.parse_stmt_block();
            return CstModuleItem::Initial { body };
        }
        if self.at(TokenKind::Hash) {
            let delay_start = self.cur_start();
            let ticks = self.parse_delay_numeric_after_hash();
            let delay_end = self.last_end();
            let mut body = CstBlock::new();
            body.push(CstStmt::Delay(ticks), (delay_start, delay_end));
            let stmt_start = self.cur_start();
            if let Some(stmts) = self.parse_stmt() {
                let stmt_end = self.last_end();
                body.push_all(stmts, (stmt_start, stmt_end));
            }
            return CstModuleItem::Always { sensitivity: Sensitivity::Star, body };
        }
        let sensitivity = self.parse_sensitivity();
        let body = self.parse_stmt_block();
        CstModuleItem::Always { sensitivity, body }
    }

    pub fn parse_param_assign_list_after_keyword(&mut self) -> (r: Option<Vec<(String, Expr)>>)
        requires
            old(self).wf(),
        ensures
            final(self).after(*old(self)),
            (pairs_result(r), final(self).st()) == p_params(old(self).input(), old(self).st()),
    {
        let ghost inp = self.input();
        if self.at(TokenKind::LBracket) {
            self.skip_past(TokenKind::RBracket);
        }
        let ghost s0 = self.st();
        let mut out: Vec<(String, Expr)> = Vec::new();
        assert(super::cst::pairs_view(out@) =~= Seq::empty());
        loop
            invariant
                self.after(*old(self)),
                inp == old(self).input(),
                p_params(inp, old(self).st()) == p_param_pairs(inp, s0, Seq::empty()),
                p_param_pairs(inp, self.st(), super::cst::pairs_view(out@)) == p_param_pairs(
                    inp,
                    s0,
                    Seq::empty(),
                ),
            decreases super::state::ahead(inp, self.st()),
        {
            let ghost before = super::cst::pairs_view(out@);
            let name = match self.expect_identifier("expected parameter name") {
                Some(n) => n,
                None => {
                    return None;
                },
            };
            if !self.match_kind(TokenKind::Eq) {
                self.error_at_current("expected `=` in parameter/localparam declaration");
                return None;
            }
            let rhs = self.parse_expression(0);
            out.push((name, rhs));
            assert(super::cst::pairs_view(out@) =~= before.push((name@, rhs@)));
            if !self.match_kind(TokenKind::Comma) {
                let _ = self.match_kind(TokenKind::Semicolon);
                return Some(out);
            }
        }
    }
}

} // verus!
