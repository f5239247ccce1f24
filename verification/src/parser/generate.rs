//! Generate constructs.
use super::cst::{AssignTarget, CstModuleItem, Expr, SynExpr, SynItem, SynTarget};
use super::state::{Input, PState, Parser};
use crate::lexer::TokenKind;
use vstd::prelude::*;

verus! {

/// Past `: name` after `begin`, if there is one.
pub open spec fn skip_block_name(inp: Input, s: PState) -> PState {
    if super::state::kind(inp, s) == TokenKind::Colon {
        super::state::identifier(
            inp,
            super::state::bump(inp, s),
            "expected block name after begin:"@,
        ).1
    } else {
        s
    }
}

/// The target, expression and range of a continuous assign.
pub open spec fn assign_parts(item: SynItem) -> (SynTarget, SynExpr, (u32, u32)) {
    match item {
        SynItem::Assign { target, expr, range } => (target, expr, range),
        _ => arbitrary(),
    }
}

/// A generate loop by what its body holds: exactly one instance, continuous assigns only,
/// or anything else.
pub open spec fn shaped_for(
    loop_var: Seq<char>,
    upper_expr: SynExpr,
    body: Seq<SynItem>,
) -> SynItem {
    if body.len() == 1 && body[0] is Instance {
        SynItem::GenerateFor {
            loop_var,
            upper_expr,
            module_name: body[0]->Instance_module_name,
            parameter_assignments: body[0]->Instance_parameter_assignments,
            instance_stem: body[0]->Instance_instance_name,
            connections: body[0]->Instance_connections,
        }
    } else if body.len() > 0 && forall|i: int|
        0 <= i < body.len() ==> (#[trigger] body[i]) is Assign {
        SynItem::GenerateForAssigns {
            loop_var,
            upper_expr,
            assigns: Seq::new(body.len(), |i: int| assign_parts(body[i])),
        }
    } else {
        SynItem::GenerateForBody { loop_var, upper_expr, body }
    }
}

/// `for (i = init; i < bound; i = step) begin`, with an optional block name: the variable
/// and the bound. Any other form gives none.
pub open spec fn p_gen_for_head(inp: Input, s: PState) -> (Option<(Seq<char>, SynExpr)>, PState) {
    let s1 = super::state::bump(inp, s);
    if super::state::kind(inp, s1) != TokenKind::LParen {
        (None, s1)
    } else {
        let (var, s2) = super::state::identifier(
            inp,
            super::state::bump(inp, s1),
            "expected loop variable"@,
        );
        if var is None || super::state::kind(inp, s2) != TokenKind::Eq {
            (None, s2)
        } else {
            let (_init, s3) = super::expr::p_expr(inp, super::state::bump(inp, s2), 0);
            if super::state::kind(inp, s3) != TokenKind::Semicolon {
                (None, s3)
            } else {
                let (bound, s4) = p_gen_for_bound(inp, super::state::bump(inp, s3));
                match bound {
                    None => (None, s4),
                    Some(bound) => {
                        let (step, s5) = p_gen_for_step(inp, s4);
                        if step {
                            (Some((var.unwrap(), bound)), s5)
                        } else {
                            (None, s5)
                        }
                    },
                }
            }
        }
    }
}

/// `i < bound;`.
pub open spec fn p_gen_for_bound(inp: Input, s: PState) -> (Option<SynExpr>, PState) {
    let (var, s1) = super::state::identifier(inp, s, "expected loop variable"@);
    if var is None || super::state::kind(inp, s1) != TokenKind::Lt {
        (None, s1)
    } else {
        let (bound, s2) = super::expr::p_expr(inp, super::state::bump(inp, s1), 0);
        if super::state::kind(inp, s2) != TokenKind::Semicolon {
            (None, s2)
        } else {
            (Some(bound), super::state::bump(inp, s2))
        }
    }
}

/// `i = step) begin`, with an optional block name; whether all of it is there.
pub open spec fn p_gen_for_step(inp: Input, s: PState) -> (bool, PState) {
    let (var, s1) = super::state::identifier(inp, s, "expected loop variable"@);
    if var is None || super::state::kind(inp, s1) != TokenKind::Eq {
        (false, s1)
    } else {
        let (_step, s2) = super::expr::p_expr(inp, super::state::bump(inp, s1), 0);
        if super::state::kind(inp, s2) != TokenKind::RParen {
            (false, s2)
        } else {
            let s3 = super::state::bump(inp, s2);
            if super::state::kind(inp, s3) != TokenKind::Begin {
                (false, s3)
            } else {
                (true, skip_block_name(inp, super::state::bump(inp, s3)))
            }
        }
    }
}

pub open spec fn p_gen_for(inp: Input, s: PState) -> (Option<SynItem>, PState)
    decreases super::state::ahead(inp, s), 0int,
    when super::state::ok(inp, s) && super::state::kind(inp, s) != TokenKind::Eof
{
    let (head, s1) = p_gen_for_head(inp, s);
    match head {
        None => (None, s1),
        Some((var, bound)) => {
            let (body, s2) = p_gen_items(
                inp,
                super::stmt::beyond(inp, s, s1),
                TokenKind::End,
                Seq::empty(),
            );
            (
                Some(shaped_for(var, bound, body)),
                super::state::skip_if(inp, s2, TokenKind::End),
            )
        },
    }
}

pub open spec fn p_gen_if(inp: Input, s: PState) -> (Option<SynItem>, PState)
    decreases super::state::ahead(inp, s), 0int,
    when super::state::ok(inp, s) && super::state::kind(inp, s) != TokenKind::Eof
{
    let s1 = super::state::bump(inp, s);
    if super::state::kind(inp, s1) != TokenKind::LParen {
        (None, s1)
    } else {
        let (cond, s2) = super::expr::p_expr(inp, super::state::bump(inp, s1), 0);
        let s3 = super::stmt::beyond(
            inp,
            s,
            super::state::skip_if(inp, s2, TokenKind::RParen),
        );
        let (then_body, s4) = p_gen_branch(inp, s3);
        let s4 = super::state::upto(inp, s3, s4);
        if super::state::kind(inp, s4) == TokenKind::Else {
            let (else_body, s5) = p_gen_branch(inp, super::state::bump(inp, s4));
            (Some(SynItem::GenerateIf { cond, then_body, else_body }), s5)
        } else {
            (Some(SynItem::GenerateIf { cond, then_body, else_body: Seq::empty() }), s4)
        }
    }
}

pub open spec fn p_gen_case(inp: Input, s: PState) -> (Option<SynItem>, PState)
    decreases super::state::ahead(inp, s), 0int,
    when super::state::ok(inp, s) && super::state::kind(inp, s) != TokenKind::Eof
{
    let s1 = super::state::bump(inp, s);
    if super::state::kind(inp, s1) != TokenKind::LParen {
        (None, s1)
    } else {
        let (scrutinee, s2) = super::expr::p_expr(inp, super::state::bump(inp, s1), 0);
        let s3 = super::stmt::beyond(
            inp,
            s,
            super::state::skip_if(inp, s2, TokenKind::RParen),
        );
        let (arms, default, s4) = p_gen_arms(inp, s3, Seq::empty(), Seq::empty());
        (
            Some(SynItem::GenerateCase { scrutinee, arms, default }),
            super::state::skip_if(inp, s4, TokenKind::Endcase),
        )
    }
}

/// The arms of a generate case up to its end. A later default replaces an earlier one.
pub open spec fn p_gen_arms(
    inp: Input,
    s: PState,
    arms: Seq<(SynExpr, Seq<SynItem>)>,
    default: Seq<SynItem>,
) -> (Seq<(SynExpr, Seq<SynItem>)>, Seq<SynItem>, PState)
    decreases super::state::ahead(inp, s), 3int,
    when super::state::ok(inp, s)
{
    let k = super::state::kind(inp, s);
    if k == TokenKind::Endcase || k == TokenKind::Eof {
        (arms, default, s)
    } else if k == TokenKind::Default {
        let s1 = super::state::skip_if(inp, super::state::bump(inp, s), TokenKind::Colon);
        let (body, s2) = p_gen_branch(inp, s1);
        p_gen_arms(inp, super::state::upto(inp, s1, s2), arms, body)
    } else {
        let (value, s1) = super::expr::p_expr(inp, s, 0);
        let s2 = super::state::skip_if(inp, super::stmt::beyond(inp, s, s1), TokenKind::Colon);
        let (body, s3) = p_gen_branch(inp, s2);
        p_gen_arms(inp, super::state::upto(inp, s2, s3), arms.push((value, body)), default)
    }
}

/// `begin … end`, or a single item.
pub open spec fn p_gen_branch(inp: Input, s: PState) -> (Seq<SynItem>, PState)
    decreases super::state::ahead(inp, s), 2int,
    when super::state::ok(inp, s)
{
    if super::state::kind(inp, s) == TokenKind::Begin {
        p_gen_block(inp, s)
    } else {
        let (item, s1) = p_gen_item(inp, s);
        match item {
            Some(i) => (seq![i], s1),
            None => (Seq::empty(), s1),
        }
    }
}

/// The items of `begin … end`.
pub open spec fn p_gen_block(inp: Input, s: PState) -> (Seq<SynItem>, PState)
    decreases super::state::ahead(inp, s), 0int,
    when super::state::ok(inp, s) && super::state::kind(inp, s) != TokenKind::Eof
{
    let s1 = super::stmt::beyond(
        inp,
        s,
        skip_block_name(inp, super::state::bump(inp, s)),
    );
    let (items, s2) = p_gen_items(inp, s1, TokenKind::End, Seq::empty());
    (items, super::state::skip_if(inp, s2, TokenKind::End))
}

/// One item of a generate body. A bare block stands for its first item. What starts no
/// item gives none.
pub open spec fn p_gen_item(inp: Input, s: PState) -> (Option<SynItem>, PState)
    decreases super::state::ahead(inp, s), 1int,
    when super::state::ok(inp, s)
{
    match super::state::kind(inp, s) {
        TokenKind::For => p_gen_for(inp, s),
        TokenKind::If => p_gen_if(inp, s),
        TokenKind::Case => p_gen_case(inp, s),
        TokenKind::Assign => super::items::p_assign(inp, s),
        TokenKind::Identifier => super::items::p_instance(inp, s),
        TokenKind::Begin => {
            let (items, s1) = p_gen_block(inp, s);
            (
                if items.len() > 0 {
                    Some(items[0])
                } else {
                    None
                },
                s1,
            )
        },
        _ => (None, s),
    }
}

/// Items up to a token of kind `until`. Where there is none, one token more is passed.
pub open spec fn p_gen_items(inp: Input, s: PState, until: TokenKind, so_far: Seq<SynItem>) -> (
    Seq<SynItem>,
    PState,
)
    decreases super::state::ahead(inp, s), 2int,
    when super::state::ok(inp, s)
{
    let k = super::state::kind(inp, s);
    if k == until || k == TokenKind::Eof {
        (so_far, s)
    } else {
        let (item, s1) = p_gen_item(inp, s);
        match item {
            Some(i) => p_gen_items(inp, super::stmt::beyond(inp, s, s1), until, so_far.push(i)),
            None => p_gen_items(
                inp,
                super::stmt::beyond(
                    inp,
                    s,
                    super::state::bump(inp, super::state::upto(inp, s, s1)),
                ),
                until,
                so_far,
            ),
        }
    }
}

/// A generate region.
pub open spec fn p_generate(inp: Input, s: PState) -> (Seq<SynItem>, PState) {
    let (items, s1) = p_gen_items(
        inp,
        super::state::bump(inp, s),
        TokenKind::Endgenerate,
        Seq::empty(),
    );
    (items, super::state::skip_if(inp, s1, TokenKind::Endgenerate))
}

fn all_assigns(body: &Vec<CstModuleItem>) -> (r: bool)
    ensures
        r == forall|i: int| 0 <= i < body@.len() ==> (#[trigger] body@[i])@ is Assign,
{
    let mut i: usize = 0;
    while i < body.len()
        invariant
            i <= body@.len(),
            forall|j: int| 0 <= j < i ==> (#[trigger] body@[j])@ is Assign,
        decreases body@.len() - i,
    {
        if let CstModuleItem::Assign { .. } = &body[i] {
        } else {
            assert(!(body@[i as int]@ is Assign));
            return false;
        }
        i = i + 1;
    }
    true
}

/// Picks the form of a generate loop.
pub fn shape_for(loop_var: String, upper_expr: Expr, body: Vec<CstModuleItem>) -> (r:
    CstModuleItem)
    ensures
        r@ == shaped_for(loop_var@, upper_expr@, super::cst::items_view(body@)),
{
    let ghost model = super::cst::items_view(body@);
    if body.len() == 1 {
        if let CstModuleItem::Instance {
            module_name,
            parameter_assignments,
            instance_name,
            connections,
        } = &body[0] {
            assert(model[0] == body@[0]@);
            return CstModuleItem::GenerateFor {
                loop_var,
                upper_expr,
                module_name: module_name.clone(),
                parameter_assignments: super::cst::clone_pairs(parameter_assignments),
                instance_stem: instance_name.clone(),
                connections: super::cst::clone_conns(connections),
            };
        }
        assert(model[0] == body@[0]@);
        assert(!(model[0] is Instance));
    }
    if body.len() > 0 && all_assigns(&body) {
        let ghost items = body@;
        assert forall|i: int| 0 <= i < model.len() implies (#[trigger] model[i]) is Assign by {
            assert(model[i] == items[i]@);
        }
        let mut assigns: Vec<(AssignTarget, Expr, (u32, u32))> = Vec::new();
        let mut i: usize = 0;
        while i < body.len()
            invariant
                i <= body@.len(),
                model == super::cst::items_view(body@),
                forall|i: int| 0 <= i < model.len() ==> (#[trigger] model[i]) is Assign,
                assigns@.len() == i,
                forall|j: int|
                    0 <= j < i ==> ((#[trigger] assigns@[j]).0@, assigns@[j].1@, assigns@[j].2)
                        == assign_parts(model[j]),
            decreases body@.len() - i,
        {
            assert(model[i as int] == body@[i as int]@);
            if let CstModuleItem::Assign { target, expr, range } = &body[i] {
                assigns.push((target.clone(), expr.clone(), *range));
            }
            i = i + 1;
        }
        assert(super::cst::gen_assigns_view(assigns@) =~= Seq::new(
            model.len(),
            |i: int| assign_parts(model[i]),
        ));
        return CstModuleItem::GenerateForAssigns { loop_var, upper_expr, assigns };
    }
    proof {
        if body@.len() > 0 {
            let w = choose|i: int| 0 <= i < body@.len() && !((#[trigger] body@[i])@ is Assign);
            assert(model[w] == body@[w]@);
        }
    }
    CstModuleItem::GenerateForBody { loop_var, upper_expr, body }
}

impl<'a> Parser<'a> {
    fn skip_block_name(&mut self)
        requires
            old(self).wf(),
        ensures
            final(self).after(*old(self)),
            final(self).st() == skip_block_name(old(self).input(), old(self).st()),
    {
        if self.match_kind(TokenKind::Colon) {
            let _ = self.expect_identifier("expected block name after begin:");
        }
    }

    fn parse_generate_for_bound(&mut self) -> (r: Option<Expr>)
        requires
            old(self).wf(),
        ensures
            final(self).after(*old(self)),
            (match r {
                Some(e) => Some(e@),
                None => None,
            }, final(self).st()) == p_gen_for_bound(old(self).input(), old(self).st()),
    {
        if self.expect_identifier("expected loop variable").is_none() {
            return None;
        }
        if !self.match_kind(TokenKind::Lt) {
            return None;
        }
        let bound = self.parse_expression(0);
        if !self.match_kind(TokenKind::Semicolon) {
            return None;
        }
        Some(bound)
    }

    fn parse_generate_for_step(&mut self) -> (r: bool)
        requires
            old(self).wf(),
        ensures
            final(self).after(*old(self)),
            (r, final(self).st()) == p_gen_for_step(old(self).input(), old(self).st()),
    {
        if self.expect_identifier("expected loop variable").is_none() {
            return false;
        }
        if !self.match_kind(TokenKind::Eq) {
            return false;
        }
        let _step = self.parse_expression(0);
        if !self.match_kind(TokenKind::RParen) {
            return false;
        }
        if !self.match_kind(TokenKind::Begin) {
            return false;
        }
        self.skip_block_name();
        true
    }

    fn parse_generate_for_head(&mut self) -> (r: Option<(String, Expr)>)
        requires
            old(self).wf(),
            super::state::kind(old(self).input(), old(self).st()) != TokenKind::Eof,
        ensures
            final(self).after(*old(self)),
            final(self).pos > old(self).pos,
            (match r {
                Some(h) => Some((h.0@, h.1@)),
                None => None,
            }, final(self).st()) == p_gen_for_head(old(self).input(), old(self).st()),
    {
        self.bump();
        if !self.match_kind(TokenKind::LParen) {
            return None;
        }
        let loop_var = match self.expect_identifier("expected loop variable") {
            Some(n) => n,
            None => {
                return None;
            },
        };
        if !self.match_kind(TokenKind::Eq) {
            return None;
        }
        let _init = self.parse_expression(0);
        if !self.match_kind(TokenKind::Semicolon) {
            return None;
        }
        let bound = match self.parse_generate_for_bound() {
            Some(e) => e,
            None => {
                return None;
            },
        };
        if !self.parse_generate_for_step() {
            return None;
        }
        Some((loop_var, bound))
    }

    fn parse_generate_for_after_keyword(&mut self) -> (r: Option<CstModuleItem>)
        requires
            old(self).wf(),
            super::state::kind(old(self).input(), old(self).st()) != TokenKind::Eof,
        ensures
            final(self).after(*old(self)),
            final(self).pos > old(self).pos,
            (super::items::item_result(r), final(self).st()) == p_gen_for(
                old(self).input(),
                old(self).st(),
            ),
        decreases old(self).tokens@.len() - old(self).pos, 0int,
    {
        match self.parse_generate_for_head() {
            Some((loop_var, upper_expr)) => {
                let body = self.parse_generate_items_until(TokenKind::End);
                let _ = self.match_kind(TokenKind::End);
                Some(shape_for(loop_var, upper_expr, body))
            },
            None => None,
        }
    }

    fn parse_generate_if_after_keyword(&mut self) -> (r: Option<CstModuleItem>)
        requires
            old(self).wf(),
            super::state::kind(old(self).input(), old(self).st()) != TokenKind::Eof,
        ensures
            final(self).after(*old(self)),
            final(self).pos > old(self).pos,
            (super::items::item_result(r), final(self).st()) == p_gen_if(
                old(self).input(),
                old(self).st(),
            ),
        decreases old(self).tokens@.len() - old(self).pos, 0int,
    {
        self.bump();
        if !self.match_kind(TokenKind::LParen) {
            return None;
        }
        let cond = self.parse_expression(0);
        let _ = self.match_kind(TokenKind::RParen);
        let then_body = self.parse_generate_branch_body();
        let mut else_body: Vec<CstModuleItem> = Vec::new();
        assert(super::cst::items_view(else_body@) =~= Seq::empty());
        if self.match_kind(TokenKind::Else) {
            else_body = self.parse_generate_branch_body();
        }
        Some(CstModuleItem::GenerateIf { cond, then_body, else_body })
    }

    fn parse_generate_branch_body(&mut self) -> (r: Vec<CstModuleItem>)
        requires
            old(self).wf(),
        ensures
            final(self).after(*old(self)),
            (super::cst::items_view(r@), final(self).st()) == p_gen_branch(
                old(self).input(),
                old(self).st(),
            ),
        decreases old(self).tokens@.len() - old(self).pos, 2int,
    {
        if self.at(TokenKind::Begin) {
            return self.parse_generate_block();
        }
        let mut items: Vec<CstModuleItem> = Vec::new();
        match self.parse_generate_item() {
            Some(item) => {
                items.push(item);
                assert(super::cst::items_view(items@) =~= seq![item@]);
            },
            None => {
                assert(super::cst::items_view(items@) =~= Seq::empty());
            },
        }
        items
    }

    fn parse_generate_block(&mut self) -> (r: Vec<CstModuleItem>)
        requires
            old(self).wf(),
            super::state::kind(old(self).input(), old(self).st()) != TokenKind::Eof,
        ensures
            final(self).after(*old(self)),
            final(self).pos > old(self).pos,
            (super::cst::items_view(r@), final(self).st()) == p_gen_block(
                old(self).input(),
                old(self).st(),
            ),
        decreases old(self).tokens@.len() - old(self).pos, 0int,
    {
        self.bump();
        self.skip_block_name();
        let items = self.parse_generate_items_until(TokenKind::End);
        let _ = self.match_kind(TokenKind::End);
        items
    }

    fn parse_generate_case_after_keyword(&mut self) -> (r: Option<CstModuleItem>)
        requires
            old(self).wf(),
            super::state::kind(old(self).input(), old(self).st()) != TokenKind::Eof,
        ensures
            final(self).after(*old(self)),
            final(self).pos > old(self).pos,
            (super::items::item_result(r), final(self).st()) == p_gen_case(
                old(self).input(),
                old(self).st(),
            ),
        decreases old(self).tokens@.len() - old(self).pos, 0int,
    {
        let ghost inp = self.input();
        self.bump();
        if !self.match_kind(TokenKind::LParen) {
            return None;
        }
        let scrutinee = self.parse_expression(0);
        let _ = self.match_kind(TokenKind::RParen);
        let ghost s3 = self.st();
        let mut arms: Vec<(Expr, Vec<CstModuleItem>)> = Vec::new();
        let mut default: Vec<CstModuleItem> = Vec::new();
        assert(super::cst::gen_arms_view(arms@) =~= Seq::empty());
        assert(super::cst::items_view(default@) =~= Seq::empty());
        while !self.at(TokenKind::Endcase) && !self.at(TokenKind::Eof)
            invariant
                self.after(*old(self)),
                self.pos >= s3.pos > old(self).pos,
                old(self).wf(),
                inp == old(self).input(),
                p_gen_arms(
                    inp,
                    self.st(),
                    super::cst::gen_arms_view(arms@),
                    super::cst::items_view(default@),
                ) == p_gen_arms(inp, s3, Seq::empty(), Seq::empty()),
            decreases super::state::ahead(inp, self.st()),
        {
            if self.match_kind(TokenKind::Default) {
                let _ = self.match_kind(TokenKind::Colon);
                default = self.parse_generate_branch_body();
            } else {
                let ghost before = super::cst::gen_arms_view(arms@);
                let value = self.parse_expression(0);
                let _ = self.match_kind(TokenKind::Colon);
                let body = self.parse_generate_branch_body();
                arms.push((value, body));
                assert(super::cst::gen_arms_view(arms@) =~= before.push(
                    (value@, super::cst::items_view(body@)),
                ));
            }
        }
        let _ = self.match_kind(TokenKind::Endcase);
        Some(CstModuleItem::GenerateCase { scrutinee, arms, default })
    }

    fn parse_generate_item(&mut self) -> (r: Option<CstModuleItem>)
        requires
            old(self).wf(),
        ensures
            final(self).after(*old(self)),
            r is Some ==> final(self).pos > old(self).pos,
            (super::items::item_result(r), final(self).st()) == p_gen_item(
                old(self).input(),
                old(self).st(),
            ),
        decreases old(self).tokens@.len() - old(self).pos, 1int,
    {
        match self.kind() {
            TokenKind::For => self.parse_generate_for_after_keyword(),
            TokenKind::If => self.parse_generate_if_after_keyword(),
            TokenKind::Case => self.parse_generate_case_after_keyword(),
            TokenKind::Assign => self.parse_assign(),
            TokenKind::Identifier => self.parse_instance_like(),
            TokenKind::Begin => {
                let items = self.parse_generate_block();
                if items.len() > 0 {
                    assert(super::cst::items_view(items@)[0] == items@[0]@);
                    Some(items[0].clone())
                } else {
                    None
                }
            },
            _ => None,
        }
    }

    fn parse_generate_items_until(&mut self, until: TokenKind) -> (r: Vec<CstModuleItem>)
        requires
            old(self).wf(),
        ensures
            final(self).after(*old(self)),
            (super::cst::items_view(r@), final(self).st()) == p_gen_items(
                old(self).input(),
                old(self).st(),
                until,
                Seq::empty(),
            ),
        decreases old(self).tokens@.len() - old(self).pos, 2int,
    {
        let ghost inp = self.input();
        let ghost s0 = self.st();
        let mut items: Vec<CstModuleItem> = Vec::new();
        assert(super::cst::items_view(items@) =~= Seq::empty());
        while !self.at(until) && !self.at(TokenKind::Eof)
            invariant
                self.after(*old(self)),
                old(self).wf(),
                inp == old(self).input(),
                p_gen_items(inp, self.st(), until, super::cst::items_view(items@)) == p_gen_items(
                    inp,
                    s0,
                    until,
                    Seq::empty(),
                ),
            decreases super::state::ahead(inp, self.st()),
        {
            let ghost before = super::cst::items_view(items@);
            match self.parse_generate_item() {
                Some(item) => {
                    items.push(item);
                    assert(super::cst::items_view(items@) =~= before.push(item@));
                },
                None => {
                    self.bump();
                },
            }
        }
        items
    }

    pub fn parse_generate_construct(&mut self) -> (r: Vec<CstModuleItem>)
        requires
            old(self).wf(),
        ensures
            final(self).after(*old(self)),
            super::state::kind(old(self).input(), old(self).st()) != TokenKind::Eof
                ==> final(self).pos > old(self).pos,
            (super::cst::items_view(r@), final(self).st()) == p_generate(
                old(self).input(),
                old(self).st(),
            ),
    {
        self.bump();
        let items = self.parse_generate_items_until(TokenKind::Endgenerate);
        let _ = self.match_kind(TokenKind::Endgenerate);
        items
    }
}

} // verus!
