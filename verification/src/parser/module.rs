//! Modules and files.
use super::cst::{CstFile, CstModule, CstModuleItem, Expr, SynExpr, SynItem, SynModule, SynPort};
use super::routines::is_direction_kind;
use super::state::{Input, PState, Parser};
use crate::expr_const::{const_eval_param_expr, resolve_local_param_values};
use crate::lexer::{Token, TokenKind};
use crate::{Diagnostic, Module, ParseResult, Port, SourceFile};
use vstd::prelude::*;

verus! {

/// At the next token of kind `k`, or at the end of input.
pub open spec fn until(inp: Input, s: PState, k: TokenKind) -> PState
    decreases super::state::ahead(inp, s),
    when super::state::ok(inp, s)
{
    if super::state::kind(inp, s) == k || super::state::kind(inp, s) == TokenKind::Eof {
        s
    } else {
        until(inp, super::state::bump(inp, s), k)
    }
}

/// Entries of a module parameter list.
pub open spec fn p_header_params(inp: Input, s: PState, so_far: Seq<(Seq<char>, SynExpr)>) -> (
    Seq<(Seq<char>, SynExpr)>,
    PState,
)
    decreases super::state::ahead(inp, s),
    when super::state::ok(inp, s)
{
    let k = super::state::kind(inp, s);
    if k == TokenKind::RParen || k == TokenKind::Eof {
        (so_far, s)
    } else {
        let s1 = super::state::skip_if(inp, s, TokenKind::Parameter);
        let (name, s2) = super::state::identifier(inp, s1, "expected parameter name"@);
        match name {
            None => (so_far, s2),
            Some(name) => if super::state::kind(inp, s2) != TokenKind::Eq {
                (
                    so_far,
                    until(
                        inp,
                        super::state::error_here(
                            inp,
                            s2,
                            "expected `=` in module parameter list"@,
                        ),
                        TokenKind::RParen,
                    ),
                )
            } else {
                let (rhs, s3) = super::expr::p_expr(inp, super::state::bump(inp, s2), 0);
                let s3 = super::stmt::beyond(inp, s, s3);
                if super::state::kind(inp, s3) == TokenKind::Comma {
                    p_header_params(inp, super::state::bump(inp, s3), so_far.push((name, rhs)))
                } else {
                    (so_far.push((name, rhs)), s3)
                }
            },
        }
    }
}

/// The parameter list `#(…)` of a module, if there is one.
pub open spec fn p_module_params(inp: Input, s: PState) -> (Seq<(Seq<char>, SynExpr)>, PState) {
    if super::state::kind(inp, s) != TokenKind::Hash {
        (Seq::empty(), s)
    } else {
        let s1 = super::state::bump(inp, s);
        if super::state::kind(inp, s1) != TokenKind::LParen {
            (Seq::empty(), s1)
        } else {
            let (params, s2) = p_header_params(inp, super::state::bump(inp, s1), Seq::empty());
            (params, super::state::skip_if(inp, s2, TokenKind::RParen))
        }
    }
}

/// Value of a port bound over the module parameters; one where they do not decide it.
pub open spec fn bound_value(e: SynExpr, params: Seq<(Seq<char>, SynExpr)>) -> i64 {
    match crate::expr_const::param_value(e, crate::expr_const::param_values(params)) {
        Some(v) => v,
        None => 1,
    }
}

/// Width in bits of a port `[msb:lsb]`.
pub open spec fn port_width(
    msb: SynExpr,
    lsb: SynExpr,
    params: Seq<(Seq<char>, SynExpr)>,
) -> usize {
    let d = bound_value(msb, params) - bound_value(lsb, params);
    crate::optimizer::rewrite::sat(
        (if d < 0 {
            1 - d
        } else {
            1 + d
        }) as nat,
    )
}

/// Ports of a module header. A port without a direction has that of the one before it,
/// with its width.
pub open spec fn p_ports(
    inp: Input,
    s: PState,
    params: Seq<(Seq<char>, SynExpr)>,
    last_direction: Option<Seq<char>>,
    last_width: usize,
    so_far: Seq<SynPort>,
) -> (Seq<SynPort>, PState)
    decreases super::state::ahead(inp, s),
    when super::state::ok(inp, s)
{
    let k = super::state::kind(inp, s);
    if k == TokenKind::RParen || k == TokenKind::Eof {
        (so_far, s)
    } else if !super::routines::is_direction(k) && k != TokenKind::Identifier {
        (so_far, super::state::error_here(inp, s, "expected port direction or name"@))
    } else {
        let (direction, width, s1) = if super::routines::is_direction(k) {
            p_port_type(inp, s, params)
        } else {
            (
                last_direction,
                if last_direction is None {
                    1
                } else {
                    last_width
                },
                s,
            )
        };
        let s1 = super::state::upto(inp, s, s1);
        let (name, s2) = super::state::identifier(inp, s1, "expected port name"@);
        match name {
            None => (so_far, s2),
            Some(name) => {
                let all = so_far.push(SynPort { direction, name, width });
                if super::state::kind(inp, s2) == TokenKind::Comma {
                    p_ports(inp, super::state::bump(inp, s2), params, direction, width, all)
                } else {
                    (all, s2)
                }
            },
        }
    }
}

/// Direction, optional net type and optional range of a port.
pub open spec fn p_port_type(inp: Input, s: PState, params: Seq<(Seq<char>, SynExpr)>) -> (
    Option<Seq<char>>,
    usize,
    PState,
) {
    let direction = Some(super::state::lexeme(inp, s));
    let s1 = super::routines::skip_net_type(inp, super::state::bump(inp, s));
    let s2 = super::state::skip_if(inp, s1, TokenKind::Signed);
    if super::state::kind(inp, s2) == TokenKind::LBracket {
        let (msb, lsb, s3) = super::items::p_dimension(inp, super::state::bump(inp, s2));
        (direction, port_width(msb, lsb, params), s3)
    } else {
        (direction, 1, s2)
    }
}

/// The token cannot stand in a module header.
pub open spec fn ends_header(k: TokenKind) -> bool {
    k == TokenKind::Assign || k == TokenKind::Wire || k == TokenKind::Reg || k
        == TokenKind::Logic || k == TokenKind::Module || k == TokenKind::Endmodule
}

/// At the semicolon that ends a module header, or past the token where it is missing.
pub open spec fn p_header_end(inp: Input, s: PState) -> PState
    decreases super::state::ahead(inp, s),
    when super::state::ok(inp, s)
{
    let k = super::state::kind(inp, s);
    if k == TokenKind::Semicolon || k == TokenKind::Eof {
        s
    } else if ends_header(k) {
        super::state::error_here(inp, s, "expected ';' after module header"@)
    } else {
        p_header_end(inp, super::state::bump(inp, s))
    }
}

pub open spec fn opt_item(item: Option<SynItem>) -> Seq<SynItem> {
    match item {
        Some(i) => seq![i],
        None => Seq::empty(),
    }
}

/// What stands at the cursor in a module body: its items, none for a declaration that
/// gives none. What starts no item is passed.
pub open spec fn p_module_item(inp: Input, s: PState) -> (Seq<SynItem>, PState) {
    let k = super::state::kind(inp, s);
    if k == TokenKind::Function {
        (Seq::empty(), super::routines::p_function(inp, s))
    } else if k == TokenKind::Task {
        (Seq::empty(), super::routines::p_task(inp, s))
    } else if k == TokenKind::Genvar {
        (
            Seq::empty(),
            super::state::past(inp, super::state::bump(inp, s), TokenKind::Semicolon),
        )
    } else if k == TokenKind::Generate {
        super::generate::p_generate(inp, s)
    } else if super::routines::is_direction(k) {
        let (item, s1) = super::items::p_directional(inp, s);
        (opt_item(item), s1)
    } else if k == TokenKind::Wire || k == TokenKind::Reg || k == TokenKind::Integer || k
        == TokenKind::Logic {
        let (item, s1) = super::items::p_net(inp, s);
        (opt_item(item), s1)
    } else if k == TokenKind::Assign {
        let (item, s1) = super::items::p_assign(inp, s);
        (opt_item(item), s1)
    } else if k == TokenKind::Always || k == TokenKind::Initial {
        let (item, s1) = super::items::p_process(inp, s);
        (seq![item], s1)
    } else if k == TokenKind::Parameter || k == TokenKind::Localparam {
        let (pairs, s1) = super::items::p_params(inp, super::state::bump(inp, s));
        match pairs {
            Some(assignments) => (seq![SynItem::LocalParam { assignments }], s1),
            None => (Seq::empty(), super::state::past(inp, s1, TokenKind::Semicolon)),
        }
    } else if k == TokenKind::Identifier {
        let (item, s1) = super::items::p_instance(inp, s);
        match item {
            Some(i) => (seq![i], s1),
            None => (Seq::empty(), super::state::past(inp, s1, TokenKind::Semicolon)),
        }
    } else {
        (Seq::empty(), super::state::bump(inp, s))
    }
}

/// The items of a module body up to its end.
pub open spec fn p_module_items(inp: Input, s: PState, so_far: Seq<SynItem>) -> (
    Seq<SynItem>,
    PState,
)
    decreases super::state::ahead(inp, s),
    when super::state::ok(inp, s)
{
    let k = super::state::kind(inp, s);
    if k == TokenKind::Endmodule || k == TokenKind::Eof {
        (so_far, s)
    } else {
        let (items, s1) = p_module_item(inp, s);
        p_module_items(inp, super::stmt::beyond(inp, s, s1), so_far + items)
    }
}

/// The state at the start of a module: no function or task is declared.
pub open spec fn fresh(s: PState) -> PState {
    PState { funcs: Seq::empty(), tasks: Seq::empty(), ..s }
}

/// A module. Functions and tasks are declared anew in each.
pub open spec fn p_module(inp: Input, s: PState) -> (Option<SynModule>, PState) {
    let (name, s1) = super::state::identifier(
        inp,
        super::state::bump(inp, fresh(s)),
        "expected module name"@,
    );
    match name {
        None => (None, s1),
        Some(name) => {
            let (module_parameters, s2) = p_module_params(inp, s1);
            let (ports, s3) = if super::state::kind(inp, s2) == TokenKind::LParen {
                let (ports, s3) = p_ports(
                    inp,
                    super::state::bump(inp, s2),
                    module_parameters,
                    None,
                    1,
                    Seq::empty(),
                );
                (ports, super::state::skip_if(inp, s3, TokenKind::RParen))
            } else {
                (Seq::empty(), s2)
            };
            let s4 = super::state::skip_if(inp, p_header_end(inp, s3), TokenKind::Semicolon);
            let (items, s5) = p_module_items(inp, s4, Seq::empty());
            (
                Some(
                    SynModule { name, ports, module_parameters, path: inp.path, items },
                ),
                super::state::skip_if(inp, s5, TokenKind::Endmodule),
            )
        },
    }
}

/// The modules of a file.
pub open spec fn p_file(inp: Input, s: PState, so_far: Seq<SynModule>) -> (
    Seq<SynModule>,
    PState,
)
    decreases super::state::ahead(inp, s),
    when super::state::ok(inp, s)
{
    let k = super::state::kind(inp, s);
    if k == TokenKind::Eof {
        (so_far, s)
    } else if k == TokenKind::Module {
        let (m, s1) = p_module(inp, s);
        p_file(
            inp,
            super::stmt::beyond(inp, s, s1),
            match m {
                Some(m) => so_far.push(m),
                None => so_far,
            },
        )
    } else {
        p_file(inp, super::state::bump(inp, s), so_far)
    }
}

/// The state before the first token.
pub open spec fn start() -> PState {
    PState { pos: 0, diags: Seq::empty(), funcs: Seq::empty(), tasks: Seq::empty() }
}

fn ends_header_kind(k: TokenKind) -> (r: bool)
    ensures
        r == ends_header(k),
{
    k == TokenKind::Assign || k == TokenKind::Wire || k == TokenKind::Reg || k
        == TokenKind::Logic || k == TokenKind::Module || k == TokenKind::Endmodule
}

/// Width of a port over the module parameters.
pub fn eval_port_packed_width(
    msb: &Expr,
    lsb: &Expr,
    module_parameters: &[(String, Expr)],
) -> (r: usize)
    ensures
        r == port_width(msb@, lsb@, super::cst::pairs_view(module_parameters@)),
{
    let known = resolve_local_param_values(module_parameters);
    let m: i64 = match const_eval_param_expr(msb, known.as_slice()) {
        Some(v) => v,
        None => 1,
    };
    let l: i64 = match const_eval_param_expr(lsb, known.as_slice()) {
        Some(v) => v,
        None => 1,
    };
    let d: i128 = (m as i128) - (l as i128);
    let n: i128 = if d < 0 {
        1 - d
    } else {
        1 + d
    };
    if n <= usize::MAX as i128 {
        n as usize
    } else {
        usize::MAX
    }
}

fn opt_list(item: Option<CstModuleItem>) -> (r: Vec<CstModuleItem>)
    ensures
        super::cst::items_view(r@) == opt_item(super::items::item_result(item)),
{
    let mut out: Vec<CstModuleItem> = Vec::new();
    if let Some(i) = item {
        out.push(i);
        assert(super::cst::items_view(out@) =~= seq![i@]);
    } else {
        assert(super::cst::items_view(out@) =~= Seq::empty());
    }
    out
}

/// A direction, by its view.
pub open spec fn name_result(r: Option<String>) -> Option<Seq<char>> {
    match r {
        Some(n) => Some(n@),
        None => None,
    }
}

impl<'a> Parser<'a> {
    fn skip_until(&mut self, k: TokenKind)
        requires
            old(self).wf(),
        ensures
            final(self).after(*old(self)),
            final(self).st() == until(old(self).input(), old(self).st(), k),
    {
        let ghost inp = self.input();
        let ghost s0 = self.st();
        while !self.at(k) && !self.at(TokenKind::Eof)
            invariant
                self.after(*old(self)),
                inp == old(self).input(),
                until(inp, self.st(), k) == until(inp, s0, k),
            decreases super::state::ahead(inp, self.st()),
        {
            self.bump();
        }
    }

    fn parse_header_params(&mut self) -> (r: Vec<(String, Expr)>)
        requires
            old(self).wf(),
        ensures
            final(self).after(*old(self)),
            (super::cst::pairs_view(r@), final(self).st()) == p_header_params(
                old(self).input(),
                old(self).st(),
                Seq::empty(),
            ),
    {
        let ghost inp = self.input();
        let ghost s0 = self.st();
        let mut out: Vec<(String, Expr)> = Vec::new();
        assert(super::cst::pairs_view(out@) =~= Seq::empty());
        while !self.at(TokenKind::RParen) && !self.at(TokenKind::Eof)
            invariant
                self.after(*old(self)),
                inp == old(self).input(),
                s0 == old(self).st(),
                p_header_params(inp, self.st(), super::cst::pairs_view(out@)) == p_header_params(
                    inp,
                    s0,
                    Seq::empty(),
                ),
            decreases super::state::ahead(inp, self.st()),
        {
            let ghost before = super::cst::pairs_view(out@);
            let _ = self.match_kind(TokenKind::Parameter);
            let name = match self.expect_identifier("expected parameter name") {
                Some(n) => n,
                None => {
                    return out;
                },
            };
            if !self.match_kind(TokenKind::Eq) {
                self.error_at_current("expected `=` in module parameter list");
                self.skip_until(TokenKind::RParen);
                return out;
            }
            let rhs = self.parse_expression(0);
            out.push((name, rhs));
            assert(super::cst::pairs_view(out@) =~= before.push((name@, rhs@)));
            if !self.match_kind(TokenKind::Comma) {
                return out;
            }
        }
        out
    }

    pub fn parse_module_parameter_list(&mut self) -> (r: Vec<(String, Expr)>)
        requires
            old(self).wf(),
        ensures
            final(self).after(*old(self)),
            (super::cst::pairs_view(r@), final(self).st()) == p_module_params(
                old(self).input(),
                old(self).st(),
            ),
    {
        let none: Vec<(String, Expr)> = Vec::new();
        assert(super::cst::pairs_view(none@) =~= Seq::empty());
        if !self.match_kind(TokenKind::Hash) {
            return none;
        }
        if !self.match_kind(TokenKind::LParen) {
            return none;
        }
        let params = self.parse_header_params();
        let _ = self.match_kind(TokenKind::RParen);
        params
    }

    fn parse_port_type(&mut self, params: &[(String, Expr)]) -> (r: (Option<String>, usize))
        requires
            old(self).wf(),
        ensures
            final(self).after(*old(self)),
            super::state::kind(old(self).input(), old(self).st()) != TokenKind::Eof
                ==> final(self).pos > old(self).pos,
            (name_result(r.0), r.1, final(self).st()) == p_port_type(
                old(self).input(),
                old(self).st(),
                super::cst::pairs_view(params@),
            ),
    {
        let direction = self.lexeme();
        self.bump();
        self.skip_net_type();
        let _ = self.match_kind(TokenKind::Signed);
        let mut width: usize = 1;
        if self.match_kind(TokenKind::LBracket) {
            let (msb, lsb) = self.parse_dimension();
            width = eval_port_packed_width(&msb, &lsb, params);
        }
        (Some(direction), width)
    }

    fn parse_ports(&mut self, params: &[(String, Expr)]) -> (r: Vec<Port>)
        requires
            old(self).wf(),
        ensures
            final(self).after(*old(self)),
            (super::cst::ports_view(r@), final(self).st()) == p_ports(
                old(self).input(),
                old(self).st(),
                super::cst::pairs_view(params@),
                None,
                1,
                Seq::empty(),
            ),
    {
        let ghost inp = self.input();
        let ghost s0 = self.st();
        let ghost model = super::cst::pairs_view(params@);
        let mut ports: Vec<Port> = Vec::new();
        let mut last_direction: Option<String> = None;
        let mut last_width: usize = 1;
        assert(super::cst::ports_view(ports@) =~= Seq::empty());
        while !self.at(TokenKind::RParen) && !self.at(TokenKind::Eof)
            invariant
                self.after(*old(self)),
                inp == old(self).input(),
                s0 == old(self).st(),
                model == super::cst::pairs_view(params@),
                p_ports(
                    inp,
                    self.st(),
                    model,
                    name_result(last_direction),
                    last_width,
                    super::cst::ports_view(ports@),
                ) == p_ports(inp, s0, model, None, 1, Seq::empty()),
            decreases super::state::ahead(inp, self.st()),
        {
            let ghost before = super::cst::ports_view(ports@);
            if is_direction_kind(self.kind()) {
                let (direction, width) = self.parse_port_type(params);
                last_direction = direction;
                last_width = width;
            } else if self.at(TokenKind::Identifier) {
                if last_direction.is_none() {
                    last_width = 1;
                }
            } else {
                self.error_at_current("expected port direction or name");
                return ports;
            }
            let name = match self.expect_identifier("expected port name") {
                Some(n) => n,
                None => {
                    return ports;
                },
            };
            let direction = match &last_direction {
                Some(d) => Some(d.clone()),
                None => None,
            };
            let port = Port { direction, name, width: last_width };
            ports.push(port);
            assert(super::cst::ports_view(ports@) =~= before.push(super::cst::port_view(port)));
            if !self.match_kind(TokenKind::Comma) {
                return ports;
            }
        }
        ports
    }

    fn skip_header(&mut self)
        requires
            old(self).wf(),
        ensures
            final(self).after(*old(self)),
            final(self).st() == p_header_end(old(self).input(), old(self).st()),
    {
        let ghost inp = self.input();
        let ghost s0 = self.st();
        while !self.at(TokenKind::Semicolon) && !self.at(TokenKind::Eof)
            invariant
                self.after(*old(self)),
                inp == old(self).input(),
                s0 == old(self).st(),
                p_header_end(inp, self.st()) == p_header_end(inp, s0),
            decreases super::state::ahead(inp, self.st()),
        {
            if ends_header_kind(self.kind()) {
                self.error_at_current("expected ';' after module header");
                return;
            }
            self.bump();
        }
    }

    fn parse_module_item(&mut self) -> (r: Vec<CstModuleItem>)
        requires
            old(self).wf(),
            super::state::kind(old(self).input(), old(self).st()) != TokenKind::Eof,
        ensures
            final(self).after(*old(self)),
            final(self).pos > old(self).pos,
            (super::cst::items_view(r@), final(self).st()) == p_module_item(
                old(self).input(),
                old(self).st(),
            ),
    {
        let k = self.kind();
        if k == TokenKind::Function {
            self.parse_function_decl();
            opt_list(None)
        } else if k == TokenKind::Task {
            self.parse_task_decl();
            opt_list(None)
        } else if k == TokenKind::Genvar {
            self.bump();
            self.skip_past(TokenKind::Semicolon);
            opt_list(None)
        } else if k == TokenKind::Generate {
            self.parse_generate_construct()
        } else if is_direction_kind(k) {
            let item = self.parse_directional_net_decl();
            opt_list(item)
        } else if k == TokenKind::Wire || k == TokenKind::Reg || k == TokenKind::Integer || k
            == TokenKind::Logic {
            let item = self.parse_net_decl();
            opt_list(item)
        } else if k == TokenKind::Assign {
            let item = self.parse_assign();
            opt_list(item)
        } else if k == TokenKind::Always || k == TokenKind::Initial {
            let item = self.parse_always();
            opt_list(Some(item))
        } else if k == TokenKind::Parameter || k == TokenKind::Localparam {
            self.bump();
            match self.parse_param_assign_list_after_keyword() {
                Some(assignments) => opt_list(Some(CstModuleItem::LocalParam { assignments })),
                None => {
                    self.skip_past(TokenKind::Semicolon);
                    opt_list(None)
                },
            }
        } else if k == TokenKind::Identifier {
            match self.parse_instance_like() {
                Some(item) => opt_list(Some(item)),
                None => {
                    self.skip_past(TokenKind::Semicolon);
                    opt_list(None)
                },
            }
        } else {
            self.bump();
            opt_list(None)
        }
    }

    fn parse_module_items(&mut self) -> (r: Vec<CstModuleItem>)
        requires
            old(self).wf(),
        ensures
            final(self).after(*old(self)),
            (super::cst::items_view(r@), final(self).st()) == p_module_items(
                old(self).input(),
                old(self).st(),
                Seq::empty(),
            ),
    {
        let ghost inp = self.input();
        let ghost s0 = self.st();
        let mut items: Vec<CstModuleItem> = Vec::new();
        assert(super::cst::items_view(items@) =~= Seq::empty());
        while !self.at(TokenKind::Endmodule) && !self.at(TokenKind::Eof)
            invariant
                self.after(*old(self)),
                inp == old(self).input(),
                p_module_items(inp, self.st(), super::cst::items_view(items@)) == p_module_items(
                    inp,
                    s0,
                    Seq::empty(),
                ),
            decreases super::state::ahead(inp, self.st()),
        {
            let ghost before = super::cst::items_view(items@);
            let mut found = self.parse_module_item();
            let ghost more = super::cst::items_view(found@);
            items.append(&mut found);
            assert(super::cst::items_view(items@) =~= before + more);
        }
        items
    }

    pub fn parse_module(&mut self) -> (r: Option<CstModule>)
        requires
            old(self).wf(),
            super::state::kind(old(self).input(), old(self).st()) != TokenKind::Eof,
        ensures
            final(self).after(*old(self)),
            final(self).pos > old(self).pos,
            (match r {
                Some(m) => Some(m@),
                None => None,
            }, final(self).st()) == p_module(old(self).input(), old(self).st()),
    {
        self.functions = Vec::new();
        self.tasks = Vec::new();
        assert(self.st().funcs =~= Seq::empty());
        assert(self.st().tasks =~= Seq::empty());
        assert(self.st() == fresh(old(self).st()));
        self.bump();
        let name = match self.expect_identifier("expected module name") {
            Some(n) => n,
            None => {
                return None;
            },
        };
        let module_parameters = self.parse_module_parameter_list();
        let mut ports: Vec<Port> = Vec::new();
        assert(super::cst::ports_view(ports@) =~= Seq::empty());
        if self.match_kind(TokenKind::LParen) {
            ports = self.parse_ports(module_parameters.as_slice());
            let _ = self.match_kind(TokenKind::RParen);
        }
        self.skip_header();
        let _ = self.match_kind(TokenKind::Semicolon);
        let items = self.parse_module_items();
        let _ = self.match_kind(TokenKind::Endmodule);
        Some(CstModule { name, ports, module_parameters, path: self.file.path.clone(), items })
    }

    pub fn parse(&mut self) -> (r: CstFile)
        requires
            old(self).wf(),
        ensures
            final(self).after(*old(self)),
            (super::cst::modules_view(r.modules@), final(self).st()) == p_file(
                old(self).input(),
                old(self).st(),
                Seq::empty(),
            ),
    {
        let ghost inp = self.input();
        let ghost s0 = self.st();
        let mut modules: Vec<CstModule> = Vec::new();
        assert(super::cst::modules_view(modules@) =~= Seq::empty());
        while !self.at(TokenKind::Eof)
            invariant
                self.after(*old(self)),
                inp == old(self).input(),
                p_file(inp, self.st(), super::cst::modules_view(modules@)) == p_file(
                    inp,
                    s0,
                    Seq::empty(),
                ),
            decreases super::state::ahead(inp, self.st()),
        {
            let ghost before = super::cst::modules_view(modules@);
            if self.at(TokenKind::Module) {
                if let Some(m) = self.parse_module() {
                    modules.push(m);
                    assert(super::cst::modules_view(modules@) =~= before.push(m@));
                }
            } else {
                self.bump();
            }
        }
        CstFile { modules }
    }
}

/// What a file with these tokens is parsed to: its modules, and the diagnostics.
pub open spec fn parsed(inp: Input) -> (Seq<SynModule>, Seq<crate::DiagM>) {
    let (modules, s) = p_file(inp, start(), Seq::empty());
    (modules, s.diags)
}

/// Parses the tokens of a file, of which the last is the end of input.
pub fn parse_cst(file: &SourceFile, tokens: &[Token]) -> (r: (CstFile, Vec<Diagnostic>))
    requires
        tokens@.len() > 0,
        tokens@.last().kind == TokenKind::Eof,
    ensures
        (super::cst::modules_view(r.0.modules@), crate::diags_view(r.1@)) == parsed(
            Input {
                toks: crate::lexer::tokens_view(tokens@),
                content: file.content@,
                path: file.path@,
            },
        ),
{
    let mut parser = Parser::new(file, tokens);
    let cst = parser.parse();
    (cst, parser.diagnostics)
}

/// A module as callers see it: without its items.
pub open spec fn listed(m: SynModule) -> crate::ModuleM {
    crate::ModuleM { name: m.name, ports: m.ports, path: m.path }
}

/// Parses the tokens of a file into modules without their items.
pub fn parse_file(file: &SourceFile, tokens: &[Token]) -> (r: ParseResult)
    requires
        tokens@.len() > 0,
        tokens@.last().kind == TokenKind::Eof,
    ensures
        ({
            let p = parsed(
                Input {
                    toks: crate::lexer::tokens_view(tokens@),
                    content: file.content@,
                    path: file.path@,
                },
            );
            &&& crate::module_list(r.modules@) == Seq::new(p.0.len(), |i: int| listed(p.0[i]))
            &&& crate::diags_view(r.diagnostics@) == p.1
        }),
{
    let (cst, diagnostics) = parse_cst(file, tokens);
    let ghost model = super::cst::modules_view(cst.modules@);
    let ghost all = cst.modules@;
    let mut modules: Vec<Module> = Vec::new();
    for m in it: cst.modules
        invariant
            it.seq() == all,
            model == super::cst::modules_view(all),
            modules@.len() == it.index(),
            forall|j: int| 0 <= j < it.index() ==> (#[trigger] modules@[j])@ == listed(model[j]),
    {
        assert(m@ == model[it.index() as int]);
        modules.push(Module { name: m.name, ports: m.ports, path: m.path });
    }
    assert(crate::module_list(modules@) =~= Seq::new(model.len(), |i: int| listed(model[i])));
    ParseResult { modules, diagnostics }
}

/// Functions and tasks of one module are not seen in another: a module is parsed the same
/// whatever was declared before it.
pub proof fn law_modules_share_no_routines(inp: Input, s: PState, t: PState)
    requires
        s.pos == t.pos,
        s.diags == t.diags,
    ensures
        p_module(inp, s) == p_module(inp, t),
{
    assert(fresh(s) == fresh(t));
}

} // verus!
