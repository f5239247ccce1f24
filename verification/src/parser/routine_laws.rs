//! Laws: what functions, tasks and generate constructs are parsed to.
use super::cst::{SynExpr, SynItem, SynStmt};
use super::state::{FuncM, Input, PState, TaskM};
use crate::lexer::TokenKind;
use vstd::prelude::*;

verus! {

proof fn lemma_value(inp: Input, s: PState, e: SynExpr)
    requires
        super::state::ok(inp, s),
        super::item_laws::holds(inp, s.pos, e),
    ensures
        super::expr::p_expr(inp, s, 0) == (
            e,
            super::item_laws::on(s, super::item_laws::size(e)),
        ),
        super::item_laws::size(e) > 0,
        s.pos + super::item_laws::size(e) < inp.toks.len(),
        super::expr_laws::begins(super::item_laws::at(inp, s.pos)),
{
    super::expr_laws::lemma_enclosed(inp, s, e);
    super::expr_laws::lemma_opens(inp, s, e);
}

proof fn lemma_bump(inp: Input, s: PState)
    requires
        super::state::ok(inp, s),
        super::item_laws::at(inp, s.pos) != TokenKind::Eof,
    ensures
        super::state::bump(inp, s) == super::item_laws::on(s, 1),
        s.pos + 1 < inp.toks.len(),
{
}

/// A name stands at `i`, directly behind token `j`, or behind a range in brackets there.
pub open spec fn name_behind(inp: Input, j: int, i: int) -> bool {
    &&& super::item_laws::at(inp, i) == TokenKind::Identifier
    &&& j < i < inp.toks.len()
    &&& {
        ||| i == j + 1
        ||| {
            &&& super::item_laws::at(inp, j + 1) == TokenKind::LBracket
            &&& j + 2 < i
            &&& super::item_laws::at(inp, i - 1) == TokenKind::RBracket
            &&& forall|k: int|
                j + 2 <= k < i - 1 ==> (#[trigger] inp.toks[k]).kind != TokenKind::RBracket
                    && inp.toks[k].kind != TokenKind::Eof
        }
    }
}

proof fn lemma_range_skipped(inp: Input, s: PState, i: int)
    requires
        super::state::ok(inp, s),
        super::item_laws::at(inp, s.pos) != TokenKind::Eof,
        name_behind(inp, s.pos, i),
    ensures
        super::routines::skip_range(inp, super::item_laws::on(s, 1)) == (PState { pos: i, ..s }),
        super::item_laws::at(inp, s.pos + 1) != TokenKind::Signed,
        super::item_laws::at(inp, s.pos + 1) != TokenKind::Wire,
        super::item_laws::at(inp, s.pos + 1) != TokenKind::Reg,
        super::item_laws::at(inp, s.pos + 1) != TokenKind::Logic,
{
    lemma_bump(inp, s);
    if i > s.pos + 1 {
        let s1 = super::item_laws::on(s, 1);
        lemma_bump(inp, s1);
        let s2 = super::item_laws::on(s, 2);
        assert(super::item_laws::on(s1, 1) == s2);
        super::error_laws::law_skipping(inp, s2, TokenKind::RBracket, i - 1);
        assert((PState { pos: i, ..s2 }) == (PState { pos: i, ..s }));
    } else {
        assert(super::item_laws::on(s, 1) == (PState { pos: i, ..s }));
    }
}

/// A function of a module, with or without a range in front of its name: its arguments are
/// its inputs in order, and its value is what is assigned to its name.
#[verifier::spinoff_prover]
pub proof fn law_function(
    inp: Input,
    s: PState,
    i: int,
    args: Seq<Seq<char>>,
    t: PState,
    value: SynExpr,
    u: PState,
)
    requires
        super::state::ok(inp, s),
        super::item_laws::at(inp, s.pos) == TokenKind::Function,
        name_behind(inp, s.pos, i),
        super::item_laws::at(inp, i + 1) == TokenKind::Semicolon,
        super::routines::p_func_decls(inp, (PState { pos: i + 2, ..s }), Seq::empty()) == (args, t),
        super::item_laws::inside(inp, t),
        super::item_laws::at(inp, t.pos) == TokenKind::Begin,
        super::routines::p_func_body(
            inp,
            super::item_laws::on(t, 1),
            t.pos + 1,
            inp.toks[i].lexeme,
            Seq::empty(),
            None,
        ) == (Some(value), u),
        super::item_laws::inside(inp, u),
        super::item_laws::at(inp, u.pos) == TokenKind::End,
        super::item_laws::at(inp, u.pos + 1) == TokenKind::Endfunction,
    ensures
        super::module::p_module_item(inp, s) == (
            Seq::<SynItem>::empty(),
            PState {
                pos: u.pos + 2,
                funcs: u.funcs.push(FuncM { name: inp.toks[i].lexeme, args, body: value }),
                ..u
            },
        ),
{
    lemma_bump(inp, s);
    lemma_range_skipped(inp, s, i);
    let n = PState { pos: i, ..s };
    lemma_bump(inp, n);
    lemma_bump(inp, super::item_laws::on(n, 1));
    assert(super::item_laws::on(super::item_laws::on(n, 1), 1) == (PState { pos: i + 2, ..s }));
    lemma_bump(inp, t);
    lemma_bump(inp, u);
    lemma_bump(inp, super::item_laws::on(u, 1));
    assert(super::item_laws::on(super::item_laws::on(u, 1), 1) == super::item_laws::on(u, 2));
}

/// One input of a function or one argument of a task, with or without a range, in order.
pub proof fn law_argument(inp: Input, s: PState, i: int, so_far: Seq<Seq<char>>)
    requires
        super::state::ok(inp, s),
        name_behind(inp, s.pos, i),
        super::item_laws::at(inp, i + 1) == TokenKind::Semicolon,
        super::item_laws::at(inp, s.pos) == TokenKind::Input || super::item_laws::at(inp, s.pos)
            == TokenKind::Output || super::item_laws::at(inp, s.pos) == TokenKind::Inout,
    ensures
        ({
            let all = so_far.push(inp.toks[i].lexeme);
            let next = PState { pos: i + 2, ..s };
            &&& super::item_laws::at(inp, s.pos) == TokenKind::Input
                ==> super::routines::p_func_decls(inp, s, so_far) == super::routines::p_func_decls(
                inp,
                next,
                all,
            )
            &&& super::routines::p_task_decls(inp, s, so_far) == super::routines::p_task_decls(
                inp,
                next,
                all,
            )
        }),
{
    lemma_bump(inp, s);
    lemma_range_skipped(inp, s, i);
    let n = PState { pos: i, ..s };
    lemma_bump(inp, n);
    lemma_bump(inp, super::item_laws::on(n, 1));
    let next = PState { pos: i + 2, ..s };
    assert(super::item_laws::on(super::item_laws::on(n, 1), 1) == next);
    assert(super::stmt::beyond(inp, s, next) == next);
}

/// A local declaration of a function is passed up to its semicolon.
pub proof fn law_local_declaration(
    inp: Input,
    s: PState,
    j: int,
    args: Seq<Seq<char>>,
    first: int,
    name: Seq<char>,
    lets: Seq<(Seq<char>, SynExpr)>,
)
    requires
        super::state::ok(inp, s),
        super::item_laws::at(inp, s.pos) == TokenKind::Reg || super::item_laws::at(inp, s.pos)
            == TokenKind::Integer || super::item_laws::at(inp, s.pos) == TokenKind::Logic,
        s.pos < j < inp.toks.len(),
        super::item_laws::at(inp, j) == TokenKind::Semicolon,
        forall|k: int|
            s.pos <= k < j ==> (#[trigger] inp.toks[k]).kind != TokenKind::Semicolon
                && inp.toks[k].kind != TokenKind::Eof,
    ensures
        super::routines::p_func_decls(inp, s, args) == super::routines::p_func_decls(
            inp,
            (PState { pos: j + 1, ..s }),
            args,
        ),
        super::routines::p_func_body(inp, s, first, name, lets, None)
            == super::routines::p_func_body(
            inp,
            (PState { pos: j + 1, ..s }),
            first,
            name,
            lets,
            None,
        ),
{
    super::error_laws::law_skipping(inp, s, TokenKind::Semicolon, j);
    lemma_bump(inp, PState { pos: j, ..s });
    let next = PState { pos: j + 1, ..s };
    assert(super::stmt::beyond(inp, s, next) == next);
}

/// A statement of a function: what is assigned to the function's name is its value, with the
/// local variables as they were assigned before; what is assigned to another name is the
/// value of that variable from there on.
#[verifier::spinoff_prover]
pub proof fn law_function_statement(
    inp: Input,
    s: PState,
    first: int,
    name: Seq<char>,
    lets: Seq<(Seq<char>, SynExpr)>,
    e: SynExpr,
)
    requires
        super::state::ok(inp, s),
        super::item_laws::at(inp, s.pos) == TokenKind::Identifier,
        super::item_laws::at(inp, s.pos + 1) == TokenKind::Eq,
        super::item_laws::holds(inp, s.pos + 2, e),
        super::item_laws::at(inp, s.pos + 2 + super::item_laws::size(e)) == TokenKind::Semicolon,
    ensures
        ({
            let target = inp.toks[s.pos].lexeme;
            let next = super::item_laws::on(s, super::item_laws::size(e) + 3);
            let bound = super::subst::subst_expr(e, lets);
            &&& target == name && super::item_laws::at(inp, next.pos) == TokenKind::End
                ==> super::routines::p_func_body(inp, s, first, name, lets, None) == (
                Some(bound),
                next,
            )
            &&& target != name ==> super::routines::p_func_body(inp, s, first, name, lets, None)
                == super::routines::p_func_body(
                inp,
                next,
                first,
                name,
                seq![(target, bound)] + lets,
                None,
            )
        }),
{
    lemma_bump(inp, s);
    let s1 = super::item_laws::on(s, 1);
    lemma_bump(inp, s1);
    let s2 = super::item_laws::on(s, 2);
    assert(super::item_laws::on(s1, 1) == s2);
    lemma_value(inp, s2, e);
    let s3 = super::item_laws::on(s2, super::item_laws::size(e));
    lemma_bump(inp, s3);
    let next = super::item_laws::on(s, super::item_laws::size(e) + 3);
    assert(super::item_laws::on(s3, 1) == next);
    assert(super::stmt::beyond(inp, s, next) == next);
    reveal_with_fuel(super::routines::p_func_body, 2);
}

/// A task of a module: its arguments in order, and its statements.
#[verifier::spinoff_prover]
pub proof fn law_task(
    inp: Input,
    s: PState,
    args: Seq<Seq<char>>,
    t: PState,
    first: Seq<SynStmt>,
    v: PState,
    body: Seq<SynStmt>,
    u: PState,
)
    requires
        super::state::ok(inp, s),
        super::item_laws::at(inp, s.pos) == TokenKind::Task,
        super::item_laws::at(inp, s.pos + 1) == TokenKind::Identifier,
        super::item_laws::at(inp, s.pos + 2) == TokenKind::Semicolon,
        super::routines::p_task_decls(inp, super::item_laws::on(s, 3), Seq::empty()) == (args, t),
        super::item_laws::inside(inp, t),
        super::item_laws::at(inp, t.pos) == TokenKind::Begin,
        super::stmt::p_stmt(inp, super::item_laws::on(t, 1)) == (Some(first), v),
        super::routines::p_task_rest(inp, v, first) == (body, u),
        super::item_laws::inside(inp, u),
        super::item_laws::at(inp, u.pos) == TokenKind::End,
        super::item_laws::at(inp, u.pos + 1) == TokenKind::Endtask,
    ensures
        super::module::p_module_item(inp, s) == (
            Seq::<SynItem>::empty(),
            PState {
                pos: u.pos + 2,
                tasks: u.tasks.push(TaskM { name: inp.toks[s.pos + 1].lexeme, args, body }),
                ..u
            },
        ),
{
    lemma_bump(inp, s);
    lemma_bump(inp, super::item_laws::on(s, 1));
    lemma_bump(inp, super::item_laws::on(s, 2));
    assert(super::item_laws::on(super::item_laws::on(s, 1), 1) == super::item_laws::on(s, 2));
    assert(super::item_laws::on(super::item_laws::on(s, 2), 1) == super::item_laws::on(s, 3));
    lemma_bump(inp, t);
    lemma_bump(inp, u);
    lemma_bump(inp, super::item_laws::on(u, 1));
    assert(super::item_laws::on(super::item_laws::on(u, 1), 1) == super::item_laws::on(u, 2));
}

/// The statements of a task come one after the other, up to `end`.
pub proof fn law_task_statement(
    inp: Input,
    s: PState,
    so_far: Seq<SynStmt>,
    stmts: Seq<SynStmt>,
    t: PState,
)
    requires
        super::state::ok(inp, s),
        s.pos < t.pos < inp.toks.len(),
    ensures
        super::item_laws::at(inp, s.pos) == TokenKind::End ==> super::routines::p_task_rest(
            inp,
            s,
            so_far,
        ) == (so_far, s),
        (super::item_laws::at(inp, s.pos) == TokenKind::Identifier || super::item_laws::at(
            inp,
            s.pos,
        ) == TokenKind::If || super::item_laws::at(inp, s.pos) == TokenKind::For
            || super::item_laws::at(inp, s.pos) == TokenKind::Case || super::item_laws::at(
            inp,
            s.pos,
        ) == TokenKind::LBrace || super::item_laws::at(inp, s.pos) == TokenKind::Hash)
            && super::stmt::p_stmt(inp, s) == (Some(stmts), t) ==> super::routines::p_task_rest(
            inp,
            s,
            so_far,
        ) == super::routines::p_task_rest(inp, t, so_far + stmts),
{
    if super::item_laws::at(inp, s.pos) != TokenKind::Eof {
        lemma_bump(inp, s);
        assert(super::stmt::beyond(inp, s, t) == t);
    }
}

/// A generate loop: its variable runs below its bound. A loop over one instance, one over
/// assignments alone, and any other one are told apart.
pub proof fn law_generate_loop_shapes(
    var: Seq<char>,
    bound: SynExpr,
    body: Seq<SynItem>,
)
    ensures
        ({
            let item = super::generate::shaped_for(var, bound, body);
            let assigns = body.len() > 0 && forall|i: int|
                0 <= i < body.len() ==> (#[trigger] body[i]) is Assign;
            let single = body.len() == 1 && body[0] is Instance;
            &&& single ==> item == (SynItem::GenerateFor {
                loop_var: var,
                upper_expr: bound,
                module_name: body[0]->Instance_module_name,
                parameter_assignments: body[0]->Instance_parameter_assignments,
                instance_stem: body[0]->Instance_instance_name,
                connections: body[0]->Instance_connections,
            })
            &&& assigns ==> item is GenerateForAssigns
                && item->GenerateForAssigns_loop_var == var
                && item->GenerateForAssigns_upper_expr == bound
                && item->GenerateForAssigns_assigns.len() == body.len() && forall|i: int|
                0 <= i < body.len() ==> (#[trigger] item->GenerateForAssigns_assigns[i]) == (
                    body[i]->Assign_target,
                    body[i]->Assign_expr,
                    body[i]->Assign_range,
                )
            &&& !single && !assigns ==> item == (SynItem::GenerateForBody {
                loop_var: var,
                upper_expr: bound,
                body,
            })
        }),
{
    let item = super::generate::shaped_for(var, bound, body);
    if body.len() > 0 && forall|i: int| 0 <= i < body.len() ==> (#[trigger] body[i]) is Assign {
        assert(body[0] is Assign);
        assert forall|i: int| 0 <= i < body.len() implies (
        #[trigger] item->GenerateForAssigns_assigns[i]) == (
            body[i]->Assign_target,
            body[i]->Assign_expr,
            body[i]->Assign_range,
        ) by {
            assert(body[i] is Assign);
        }
    }
}

/// A generate loop `for (v = a; v < b; v = c) begin .. end`, with or without a name of its
/// block.
#[verifier::spinoff_prover]
pub proof fn law_generate_loop(
    inp: Input,
    s: PState,
    start: SynExpr,
    bound: SynExpr,
    step: SynExpr,
    named: bool,
    body: Seq<SynItem>,
    t: PState,
)
    requires
        super::state::ok(inp, s),
        super::item_laws::at(inp, s.pos) == TokenKind::For,
        super::item_laws::at(inp, s.pos + 1) == TokenKind::LParen,
        super::item_laws::at(inp, s.pos + 2) == TokenKind::Identifier,
        super::item_laws::at(inp, s.pos + 3) == TokenKind::Eq,
        super::item_laws::holds(inp, s.pos + 4, start),
        bound_here(inp, s.pos + 4 + super::item_laws::size(start), bound),
        step_here(
            inp,
            s.pos + 7 + super::item_laws::size(start) + super::item_laws::size(bound),
            step,
            named,
        ),
        super::generate::p_gen_items(
            inp,
            loop_body(s, start, bound, step, named),
            TokenKind::End,
            Seq::empty(),
        ) == (body, t),
        super::item_laws::inside(inp, t),
        super::item_laws::at(inp, t.pos) == TokenKind::End,
    ensures
        super::generate::p_gen_item(inp, s) == (
            Some(super::generate::shaped_for(inp.toks[s.pos + 2].lexeme, bound, body)),
            super::item_laws::on(t, 1),
        ),
{
    let s1 = super::item_laws::on(s, 1);
    let s2 = super::item_laws::on(s, 2);
    let s3 = super::item_laws::on(s, 3);
    let s4 = super::item_laws::on(s, 4);
    lemma_bump(inp, s);
    lemma_bump(inp, s1);
    lemma_bump(inp, s2);
    lemma_bump(inp, s3);
    assert(super::item_laws::on(s1, 1) == s2);
    assert(super::item_laws::on(s2, 1) == s3);
    assert(super::item_laws::on(s3, 1) == s4);
    lemma_value(inp, s4, start);
    let s5 = super::item_laws::on(s4, super::item_laws::size(start));
    lemma_bump(inp, s5);
    let s6 = super::item_laws::on(s5, 1);
    lemma_loop_bound(inp, s6, bound);
    let s7 = super::item_laws::on(s6, super::item_laws::size(bound) + 3);
    assert(s7.pos == s.pos + 8 + super::item_laws::size(start) + super::item_laws::size(bound));
    lemma_loop_step(inp, s7, step, named);
    let s8 = loop_body(s, start, bound, step, named);
    assert(super::generate::p_gen_for_head(inp, s) == (
        Some((inp.toks[s.pos + 2].lexeme, bound)),
        s8,
    ));
    assert(super::stmt::beyond(inp, s, s8) == s8);
    lemma_bump(inp, t);
}

/// The state behind the head of a generate loop.
pub open spec fn loop_body(
    s: PState,
    start: SynExpr,
    bound: SynExpr,
    step: SynExpr,
    named: bool,
) -> PState {
    super::item_laws::on(
        s,
        super::item_laws::size(start) + super::item_laws::size(bound) + super::item_laws::size(step)
            + if named {
            14nat
        } else {
            12nat
        },
    )
}

/// `; v < bound ;` stands here.
pub open spec fn bound_here(inp: Input, i: int, bound: SynExpr) -> bool {
    &&& super::item_laws::at(inp, i) == TokenKind::Semicolon
    &&& super::item_laws::at(inp, i + 1) == TokenKind::Identifier
    &&& super::item_laws::at(inp, i + 2) == TokenKind::Lt
    &&& super::item_laws::holds(inp, i + 3, bound)
}

/// `; v = step ) begin` stands here, with or without a name of the block.
pub open spec fn step_here(inp: Input, i: int, step: SynExpr, named: bool) -> bool {
    let n = super::item_laws::size(step);
    &&& super::item_laws::at(inp, i) == TokenKind::Semicolon
    &&& super::item_laws::at(inp, i + 1) == TokenKind::Identifier
    &&& super::item_laws::at(inp, i + 2) == TokenKind::Eq
    &&& super::item_laws::holds(inp, i + 3, step)
    &&& super::item_laws::at(inp, i + 3 + n) == TokenKind::RParen
    &&& super::item_laws::at(inp, i + 4 + n) == TokenKind::Begin
    &&& named == (super::item_laws::at(inp, i + 5 + n) == TokenKind::Colon)
    &&& named ==> super::item_laws::at(inp, i + 6 + n) == TokenKind::Identifier
}

proof fn lemma_loop_bound(inp: Input, s: PState, bound: SynExpr)
    requires
        super::state::ok(inp, s),
        super::item_laws::at(inp, s.pos) == TokenKind::Identifier,
        super::item_laws::at(inp, s.pos + 1) == TokenKind::Lt,
        super::item_laws::holds(inp, s.pos + 2, bound),
        super::item_laws::at(inp, s.pos + 2 + super::item_laws::size(bound))
            == TokenKind::Semicolon,
    ensures
        super::generate::p_gen_for_bound(inp, s) == (
            Some(bound),
            super::item_laws::on(s, super::item_laws::size(bound) + 3),
        ),
        s.pos + super::item_laws::size(bound) + 3 < inp.toks.len(),
{
    let s1 = super::item_laws::on(s, 1);
    let s2 = super::item_laws::on(s, 2);
    lemma_bump(inp, s);
    lemma_bump(inp, s1);
    assert(super::item_laws::on(s1, 1) == s2);
    lemma_value(inp, s2, bound);
    let s3 = super::item_laws::on(s2, super::item_laws::size(bound));
    lemma_bump(inp, s3);
    assert(super::item_laws::on(s3, 1) == super::item_laws::on(
        s,
        super::item_laws::size(bound) + 3,
    ));
}

proof fn lemma_loop_step(inp: Input, s: PState, step: SynExpr, named: bool)
    requires
        super::state::ok(inp, s),
        step_here(inp, s.pos - 1, step, named),
    ensures
        ({
            let n = super::item_laws::size(step) + if named {
                6nat
            } else {
                4nat
            };
            super::generate::p_gen_for_step(inp, s) == (true, super::item_laws::on(s, n)) && s.pos
                + n < inp.toks.len()
        }),
{
    let n = super::item_laws::size(step);
    let s1 = super::item_laws::on(s, 1);
    let s2 = super::item_laws::on(s, 2);
    lemma_bump(inp, s);
    lemma_bump(inp, s1);
    assert(super::item_laws::on(s1, 1) == s2);
    lemma_value(inp, s2, step);
    let s3 = super::item_laws::on(s2, n);
    lemma_bump(inp, s3);
    let s4 = super::item_laws::on(s3, 1);
    lemma_bump(inp, s4);
    let s5 = super::item_laws::on(s, n + 4);
    assert(super::item_laws::on(s4, 1) == s5);
    if named {
        lemma_block_name(inp, s5);
        assert(super::item_laws::on(s5, 2) == super::item_laws::on(s, n + 6));
    }
}

proof fn lemma_block_name(inp: Input, s: PState)
    requires
        super::state::ok(inp, s),
        super::item_laws::at(inp, s.pos) == TokenKind::Colon,
        super::item_laws::at(inp, s.pos + 1) == TokenKind::Identifier,
    ensures
        super::generate::skip_block_name(inp, s) == super::item_laws::on(s, 2),
        s.pos + 2 < inp.toks.len(),
{
    lemma_bump(inp, s);
    lemma_bump(inp, super::item_laws::on(s, 1));
    assert(super::item_laws::on(super::item_laws::on(s, 1), 1) == super::item_laws::on(s, 2));
}

/// A generate block with a name.
pub proof fn law_named_generate_block(inp: Input, s: PState, items: Seq<SynItem>, t: PState)
    requires
        super::state::ok(inp, s),
        super::item_laws::at(inp, s.pos) == TokenKind::Begin,
        super::item_laws::at(inp, s.pos + 1) == TokenKind::Colon,
        super::item_laws::at(inp, s.pos + 2) == TokenKind::Identifier,
        super::generate::p_gen_items(
            inp,
            super::item_laws::on(s, 3),
            TokenKind::End,
            Seq::empty(),
        ) == (items, t),
        super::item_laws::inside(inp, t),
        super::item_laws::at(inp, t.pos) == TokenKind::End,
    ensures
        super::generate::p_gen_branch(inp, s) == (items, super::item_laws::on(t, 1)),
{
    lemma_bump(inp, s);
    lemma_block_name(inp, super::item_laws::on(s, 1));
    let s3 = super::item_laws::on(s, 3);
    assert(super::item_laws::on(super::item_laws::on(s, 1), 2) == s3);
    assert(super::stmt::beyond(inp, s, s3) == s3);
    lemma_bump(inp, t);
}

/// A generate conditional: the first items belong to the condition, the second ones to
/// `else`, and there are none without that.
#[verifier::spinoff_prover]
pub proof fn law_generate_if(inp: Input, s: PState, cond: SynExpr, body: Seq<SynItem>, t: PState)
    requires
        super::state::ok(inp, s),
        super::item_laws::at(inp, s.pos) == TokenKind::If,
        super::item_laws::at(inp, s.pos + 1) == TokenKind::LParen,
        super::item_laws::holds(inp, s.pos + 2, cond),
        super::item_laws::at(inp, s.pos + 2 + super::item_laws::size(cond)) == TokenKind::RParen,
        super::generate::p_gen_branch(
            inp,
            super::item_laws::on(s, super::item_laws::size(cond) + 3),
        ) == (body, t),
        s.pos + super::item_laws::size(cond) + 3 <= t.pos < inp.toks.len(),
    ensures
        super::item_laws::at(inp, t.pos) == TokenKind::Else ==> ({
            let (other, end) = super::generate::p_gen_branch(inp, super::item_laws::on(t, 1));
            super::generate::p_gen_item(inp, s) == (
                Some(SynItem::GenerateIf { cond, then_body: body, else_body: other }),
                end,
            )
        }),
        super::item_laws::at(inp, t.pos) != TokenKind::Else ==> super::generate::p_gen_item(inp, s)
            == (
            Some(SynItem::GenerateIf { cond, then_body: body, else_body: Seq::empty() }),
            t,
        ),
{
    let s2 = super::item_laws::on(s, 2);
    lemma_bump(inp, s);
    lemma_bump(inp, super::item_laws::on(s, 1));
    assert(super::item_laws::on(super::item_laws::on(s, 1), 1) == s2);
    lemma_value(inp, s2, cond);
    let s3 = super::item_laws::on(s2, super::item_laws::size(cond));
    lemma_bump(inp, s3);
    let s4 = super::item_laws::on(s, super::item_laws::size(cond) + 3);
    assert(super::item_laws::on(s3, 1) == s4);
    assert(super::stmt::beyond(inp, s, s4) == s4);
    assert(super::state::upto(inp, s4, t) == t);
    if super::item_laws::at(inp, t.pos) == TokenKind::Else {
        lemma_bump(inp, t);
    }
}

/// A generate case: its arms in order, and its default.
#[verifier::spinoff_prover]
pub proof fn law_generate_case(
    inp: Input,
    s: PState,
    scrutinee: SynExpr,
    arms: Seq<(SynExpr, Seq<SynItem>)>,
    default: Seq<SynItem>,
    t: PState,
)
    requires
        super::state::ok(inp, s),
        super::item_laws::at(inp, s.pos) == TokenKind::Case,
        super::item_laws::at(inp, s.pos + 1) == TokenKind::LParen,
        super::item_laws::holds(inp, s.pos + 2, scrutinee),
        super::item_laws::at(inp, s.pos + 2 + super::item_laws::size(scrutinee))
            == TokenKind::RParen,
        super::generate::p_gen_arms(
            inp,
            super::item_laws::on(s, super::item_laws::size(scrutinee) + 3),
            Seq::empty(),
            Seq::empty(),
        ) == (arms, default, t),
        super::item_laws::inside(inp, t),
        super::item_laws::at(inp, t.pos) == TokenKind::Endcase,
    ensures
        super::generate::p_gen_item(inp, s) == (
            Some(SynItem::GenerateCase { scrutinee, arms, default }),
            super::item_laws::on(t, 1),
        ),
{
    let s2 = super::item_laws::on(s, 2);
    lemma_bump(inp, s);
    lemma_bump(inp, super::item_laws::on(s, 1));
    assert(super::item_laws::on(super::item_laws::on(s, 1), 1) == s2);
    lemma_value(inp, s2, scrutinee);
    let s3 = super::item_laws::on(s2, super::item_laws::size(scrutinee));
    lemma_bump(inp, s3);
    let s4 = super::item_laws::on(s, super::item_laws::size(scrutinee) + 3);
    assert(super::item_laws::on(s3, 1) == s4);
    assert(super::stmt::beyond(inp, s, s4) == s4);
    lemma_bump(inp, t);
}

/// An arm of a generate case, its default, and its end.
#[verifier::spinoff_prover]
pub proof fn law_generate_arm(
    inp: Input,
    s: PState,
    value: SynExpr,
    arms: Seq<(SynExpr, Seq<SynItem>)>,
    default: Seq<SynItem>,
    body: Seq<SynItem>,
    t: PState,
)
    requires
        super::state::ok(inp, s),
        t.pos < inp.toks.len(),
    ensures
        super::item_laws::holds(inp, s.pos, value) && super::item_laws::at(
            inp,
            s.pos + super::item_laws::size(value),
        ) == TokenKind::Colon && super::generate::p_gen_branch(
            inp,
            super::item_laws::on(s, super::item_laws::size(value) + 1),
        ) == (body, t) && s.pos + super::item_laws::size(value) < t.pos
            ==> super::generate::p_gen_arms(inp, s, arms, default) == super::generate::p_gen_arms(
            inp,
            t,
            arms.push((value, body)),
            default,
        ),
        super::item_laws::at(inp, s.pos) == TokenKind::Default && super::item_laws::at(
            inp,
            s.pos + 1,
        ) == TokenKind::Colon && super::generate::p_gen_branch(inp, super::item_laws::on(s, 2)) == (
            body,
            t,
        ) && s.pos + 2 <= t.pos ==> super::generate::p_gen_arms(inp, s, arms, default)
            == super::generate::p_gen_arms(inp, t, arms, body),
        super::item_laws::at(inp, s.pos) == TokenKind::Endcase ==> super::generate::p_gen_arms(
            inp,
            s,
            arms,
            default,
        ) == (arms, default, s),
{
    let n = super::item_laws::size(value);
    if super::item_laws::holds(inp, s.pos, value) && super::item_laws::at(inp, s.pos + n)
        == TokenKind::Colon && super::generate::p_gen_branch(inp, super::item_laws::on(s, n + 1))
        == (body, t) && s.pos + n < t.pos {
        lemma_value(inp, s, value);
        let s1 = super::item_laws::on(s, n);
        assert(super::stmt::beyond(inp, s, s1) == s1);
        lemma_bump(inp, s1);
        let s2 = super::item_laws::on(s, n + 1);
        assert(super::item_laws::on(s1, 1) == s2);
        assert(super::state::upto(inp, s2, t) == t);
    }
    if super::item_laws::at(inp, s.pos) == TokenKind::Default && super::item_laws::at(inp, s.pos + 1)
        == TokenKind::Colon {
        lemma_bump(inp, s);
        lemma_bump(inp, super::item_laws::on(s, 1));
        let s2 = super::item_laws::on(s, 2);
        assert(super::item_laws::on(super::item_laws::on(s, 1), 1) == s2);
        if s2.pos <= t.pos {
            assert(super::state::upto(inp, s2, t) == t);
        }
    }
}

/// The items of a generate block come one after the other; a branch without `begin` is one
/// item.
pub proof fn law_generate_items(
    inp: Input,
    s: PState,
    end: TokenKind,
    so_far: Seq<SynItem>,
    item: SynItem,
    t: PState,
)
    requires
        super::state::ok(inp, s),
        s.pos < t.pos < inp.toks.len(),
        super::generate::p_gen_item(inp, s) == (Some(item), t),
        super::item_laws::at(inp, s.pos) != TokenKind::Eof,
    ensures
        super::item_laws::at(inp, s.pos) != end ==> super::generate::p_gen_items(
            inp,
            s,
            end,
            so_far,
        ) == super::generate::p_gen_items(inp, t, end, so_far.push(item)),
        super::item_laws::at(inp, s.pos) != TokenKind::Begin ==> super::generate::p_gen_branch(
            inp,
            s,
        ) == (seq![item], t),
{
    lemma_bump(inp, s);
    assert(super::stmt::beyond(inp, s, t) == t);
}

/// A generate block is what stands between `begin` and `end`, and the whole construct what
/// stands before `endgenerate`.
pub proof fn law_generate_block(inp: Input, s: PState, items: Seq<SynItem>, t: PState)
    requires
        super::state::ok(inp, s),
        super::item_laws::inside(inp, t),
    ensures
        super::item_laws::at(inp, s.pos) == TokenKind::Begin && super::item_laws::at(inp, s.pos + 1)
            != TokenKind::Colon && super::generate::p_gen_items(
            inp,
            super::item_laws::on(s, 1),
            TokenKind::End,
            Seq::empty(),
        ) == (items, t) && super::item_laws::at(inp, t.pos) == TokenKind::End
            ==> super::generate::p_gen_branch(inp, s) == (items, super::item_laws::on(t, 1)),
        super::item_laws::at(inp, s.pos) == TokenKind::Generate && super::generate::p_gen_items(
            inp,
            super::item_laws::on(s, 1),
            TokenKind::Endgenerate,
            Seq::empty(),
        ) == (items, t) && super::item_laws::at(inp, t.pos) == TokenKind::Endgenerate
            ==> super::module::p_module_item(inp, s) == (items, super::item_laws::on(t, 1)),
        super::item_laws::at(inp, s.pos) == TokenKind::End ==> super::generate::p_gen_items(
            inp,
            s,
            TokenKind::End,
            items,
        ) == (items, s),
        super::item_laws::at(inp, s.pos) == TokenKind::Endgenerate ==> super::generate::p_gen_items(
            inp,
            s,
            TokenKind::Endgenerate,
            items,
        ) == (items, s),
{
    if super::item_laws::at(inp, s.pos) != TokenKind::Eof {
        lemma_bump(inp, s);
        assert(super::stmt::beyond(inp, s, super::item_laws::on(s, 1)) == super::item_laws::on(
            s,
            1,
        ));
    }
    if super::item_laws::at(inp, t.pos) != TokenKind::Eof {
        lemma_bump(inp, t);
    }
}

} // verus!
