//! Canonical operand order for commutative operators.
//!
//! Identifiers come first (alphabetically), then compound expressions (by hash), then
//! constants (by value), so that adjacent constants can be combined.
use super::rules::is_commutative;
use crate::ir::{ExprM, IrAssign, IrBinOp, IrExpr, IrUnaryOp};
use crate::text::str_lt;
use std::collections::hash_map::DefaultHasher;
use std::hash::Hasher;
use vstd::prelude::*;

verus! {

/// Number by which an operator enters the hash.
pub open spec fn bin_code(op: IrBinOp) -> u8 {
    match op {
        IrBinOp::Add => 0,
        IrBinOp::Sub => 1,
        IrBinOp::Mul => 2,
        IrBinOp::Div => 3,
        IrBinOp::Mod => 4,
        IrBinOp::And => 5,
        IrBinOp::Or => 6,
        IrBinOp::Xor => 7,
        IrBinOp::Shl => 8,
        IrBinOp::Shr => 9,
        IrBinOp::Ashr => 10,
        IrBinOp::LogAnd => 11,
        IrBinOp::LogOr => 12,
        IrBinOp::Eq => 13,
        IrBinOp::Ne => 14,
        IrBinOp::Lt => 15,
        IrBinOp::Le => 16,
        IrBinOp::Gt => 17,
        IrBinOp::Ge => 18,
    }
}

fn bin_op_code(op: IrBinOp) -> (r: u8)
    ensures
        r == bin_code(op),
{
    match op {
        IrBinOp::Add => 0,
        IrBinOp::Sub => 1,
        IrBinOp::Mul => 2,
        IrBinOp::Div => 3,
        IrBinOp::Mod => 4,
        IrBinOp::And => 5,
        IrBinOp::Or => 6,
        IrBinOp::Xor => 7,
        IrBinOp::Shl => 8,
        IrBinOp::Shr => 9,
        IrBinOp::Ashr => 10,
        IrBinOp::LogAnd => 11,
        IrBinOp::LogOr => 12,
        IrBinOp::Eq => 13,
        IrBinOp::Ne => 14,
        IrBinOp::Lt => 15,
        IrBinOp::Le => 16,
        IrBinOp::Gt => 17,
        IrBinOp::Ge => 18,
    }
}

pub open spec fn un_code(op: IrUnaryOp) -> u8 {
    match op {
        IrUnaryOp::Not => 0,
        IrUnaryOp::LogNot => 1,
        IrUnaryOp::Neg => 2,
    }
}

fn un_op_code(op: IrUnaryOp) -> (r: u8)
    ensures
        r == un_code(op),
{
    match op {
        IrUnaryOp::Not => 0,
        IrUnaryOp::LogNot => 1,
        IrUnaryOp::Neg => 2,
    }
}

/// What a name feeds into the hasher: its bytes and a terminator.
pub open spec fn name_writes(s: Seq<char>) -> Seq<Seq<u8>> {
    seq![vstd::utf8::encode_utf8(s), seq![0xffu8]]
}

/// What an expression feeds into the hasher, one entry per write.
pub open spec fn hash_writes(e: ExprM) -> Seq<Seq<u8>>
    decreases e,
{
    match e {
        ExprM::Const(v) => seq![seq![0u8], vstd::bytes::spec_u64_to_le_bytes(v as u64)],
        ExprM::Ident(s) => seq![seq![1u8]] + name_writes(s),
        ExprM::Binary { op, left, right } => seq![seq![2u8], seq![bin_code(op)]] + hash_writes(
            *left,
        ) + hash_writes(*right),
        ExprM::Unary { op, operand } => seq![seq![3u8], seq![un_code(op)]] + hash_writes(*operand),
        ExprM::Signed(x) => seq![seq![8u8]] + hash_writes(*x),
        ExprM::Ternary { cond, then_expr, else_expr } => seq![seq![4u8]] + hash_writes(*cond)
            + hash_writes(*then_expr) + hash_writes(*else_expr),
        ExprM::Concat(es) => seq![seq![5u8]] + hash_writes_all(es),
        ExprM::PartSelect { value, msb, lsb } => seq![seq![6u8]] + hash_writes(*value)
            + hash_writes(*msb) + hash_writes(*lsb),
        ExprM::MemRead { stem, index } => seq![seq![7u8]] + name_writes(stem) + hash_writes(*index),
    }
}

pub open spec fn hash_writes_all(es: Seq<ExprM>) -> Seq<Seq<u8>>
    decreases es,
{
    if es.len() == 0 {
        Seq::empty()
    } else {
        hash_writes_all(es.drop_last()) + hash_writes(es.last())
    }
}

fn write_byte(h: &mut DefaultHasher, b: u8)
    ensures
        final(h)@ == old(h)@.push(seq![b]),
{
    let bytes: [u8; 1] = [b];
    h.write(&bytes);
    assert(bytes@ =~= seq![b]);
}

fn write_name(h: &mut DefaultHasher, s: &str)
    ensures
        final(h)@ == old(h)@ + name_writes(s@),
{
    h.write(s.as_bytes());
    write_byte(h, 0xff);
    assert(h@ =~= old(h)@ + name_writes(s@));
}

/// Feeds an expression into a hasher.
fn hash_expr(expr: &IrExpr, h: &mut DefaultHasher)
    ensures
        final(h)@ == old(h)@ + hash_writes(expr@),
    decreases expr,
{
    match expr {
        IrExpr::Const(v) => {
            write_byte(h, 0);
            let bytes = vstd::bytes::u64_to_le_bytes(*v as u64);
            h.write(bytes.as_slice());
        },
        IrExpr::Ident(s) => {
            write_byte(h, 1);
            write_name(h, s.as_str());
        },
        IrExpr::Binary { op, left, right } => {
            write_byte(h, 2);
            write_byte(h, bin_op_code(*op));
            hash_expr(left, h);
            hash_expr(right, h);
        },
        IrExpr::Unary { op, operand } => {
            write_byte(h, 3);
            write_byte(h, un_op_code(*op));
            hash_expr(operand, h);
        },
        IrExpr::Signed(inner) => {
            write_byte(h, 8);
            hash_expr(inner, h);
        },
        IrExpr::Ternary { cond, then_expr, else_expr } => {
            write_byte(h, 4);
            hash_expr(cond, h);
            hash_expr(then_expr, h);
            hash_expr(else_expr, h);
        },
        IrExpr::Concat(exprs) => {
            write_byte(h, 5);
            let ghost start = h@;
            let ghost model = crate::ir::exprs_view(exprs@);
            let mut i: usize = 0;
            assert(h@ =~= start + hash_writes_all(model.take(0)));
            while i < exprs.len()
                invariant
                    i <= exprs@.len(),
                    model == crate::ir::exprs_view(exprs@),
                    h@ == start + hash_writes_all(model.take(i as int)),
                    decreases_to!(expr => exprs@),
                decreases exprs@.len() - i,
            {
                assert(decreases_to!(exprs@ => exprs@[i as int]));
                assert(model.take(i + 1).drop_last() == model.take(i as int));
                assert(model.take(i + 1).last() == exprs@[i as int]@);
                hash_expr(&exprs[i], h);
                assert(h@ =~= start + hash_writes_all(model.take(i + 1)));
                i = i + 1;
            }
            assert(model.take(i as int) == model);
        },
        IrExpr::PartSelect { value, msb, lsb } => {
            write_byte(h, 6);
            hash_expr(value, h);
            hash_expr(msb, h);
            hash_expr(lsb, h);
        },
        IrExpr::MemRead { stem, index } => {
            write_byte(h, 7);
            write_name(h, stem.as_str());
            hash_expr(index, h);
        },
    }
    assert(h@ =~= old(h)@ + hash_writes(expr@));
}

/// Hash of an expression.
pub open spec fn hash_of(e: ExprM) -> u64 {
    <DefaultHasher as vstd::std_specs::hash::DefaultHasherAdditionalSpecFns>::spec_finish(
        hash_writes(e),
    )
}

pub fn expr_hash(expr: &IrExpr) -> (r: u64)
    ensures
        r == hash_of(expr@),
{
    let mut h = DefaultHasher::new();
    hash_expr(expr, &mut h);
    assert(h@ =~= hash_writes(expr@));
    h.finish()
}

/// Rank of an expression in operand order: identifiers, compound expressions, constants.
pub open spec fn key_class(e: ExprM) -> int {
    match e {
        ExprM::Ident(_) => 0,
        ExprM::Const(_) => 2,
        _ => 1,
    }
}

/// `a` belongs strictly before `b` in canonical operand order.
pub open spec fn key_lt(a: ExprM, b: ExprM) -> bool {
    if key_class(a) != key_class(b) {
        key_class(a) < key_class(b)
    } else {
        match (a, b) {
            (ExprM::Ident(x), ExprM::Ident(y)) => crate::text::text_lt(x, y),
            (ExprM::Const(x), ExprM::Const(y)) => x < y,
            _ => (hash_of(a) as i64) < (hash_of(b) as i64),
        }
    }
}

fn class_of(e: &IrExpr) -> (r: u8)
    ensures
        r == key_class(e@),
{
    match e {
        IrExpr::Ident(_) => 0,
        IrExpr::Const(_) => 2,
        _ => 1,
    }
}

/// Whether `a` sorts strictly before `b`.
pub fn sorts_before(a: &IrExpr, b: &IrExpr) -> (r: bool)
    ensures
        r == key_lt(a@, b@),
{
    let ca: u8 = class_of(a);
    let cb: u8 = class_of(b);
    if ca != cb {
        return ca < cb;
    }
    match (a, b) {
        (IrExpr::Ident(x), IrExpr::Ident(y)) => str_lt(x.as_str(), y.as_str()),
        (IrExpr::Const(x), IrExpr::Const(y)) => *x < *y,
        _ => {
            let ha: i64 = expr_hash(a) as i64;
            let hb: i64 = expr_hash(b) as i64;
            ha < hb
        },
    }
}

/// The expression with the operands of every commutative operator in canonical order.
pub open spec fn canonical(e: ExprM) -> ExprM
    decreases e,
{
    match e {
        ExprM::Const(_) | ExprM::Ident(_) => e,
        ExprM::Binary { op, left, right } => {
            let l = canonical(*left);
            let r = canonical(*right);
            if super::rules::commutes(op) && key_lt(r, l) {
                crate::ir::bin_m(op, r, l)
            } else {
                crate::ir::bin_m(op, l, r)
            }
        },
        ExprM::Unary { op, operand } => crate::ir::un_m(op, canonical(*operand)),
        ExprM::Signed(x) => ExprM::Signed(Box::new(canonical(*x))),
        ExprM::Ternary { cond, then_expr, else_expr } => crate::ir::ternary_m(
            canonical(*cond),
            canonical(*then_expr),
            canonical(*else_expr),
        ),
        ExprM::Concat(es) => ExprM::Concat(canonical_all(es)),
        ExprM::PartSelect { value, msb, lsb } => ExprM::PartSelect {
            value: Box::new(canonical(*value)),
            msb: Box::new(canonical(*msb)),
            lsb: Box::new(canonical(*lsb)),
        },
        ExprM::MemRead { stem, index } => ExprM::MemRead { stem, index: Box::new(canonical(*index)) },
    }
}

pub open spec fn canonical_all(es: Seq<ExprM>) -> Seq<ExprM>
    decreases es,
{
    if es.len() == 0 {
        Seq::empty()
    } else {
        canonical_all(es.drop_last()).push(canonical(es.last()))
    }
}

/// Number of operand pairs that are swapped.
pub open spec fn swap_count(e: ExprM) -> nat
    decreases e,
{
    match e {
        ExprM::Const(_) | ExprM::Ident(_) => 0,
        ExprM::Binary { op, left, right } => swap_count(*left) + swap_count(*right) + if (
        super::rules::commutes(op) && key_lt(canonical(*right), canonical(*left))) {
            1nat
        } else {
            0nat
        },
        ExprM::Unary { op, operand } => swap_count(*operand),
        ExprM::Signed(x) => swap_count(*x),
        ExprM::Ternary { cond, then_expr, else_expr } => swap_count(*cond) + swap_count(*then_expr)
            + swap_count(*else_expr),
        ExprM::Concat(es) => swap_count_all(es),
        ExprM::PartSelect { value, msb, lsb } => swap_count(*value) + swap_count(*msb) + swap_count(
            *lsb,
        ),
        ExprM::MemRead { stem, index } => swap_count(*index),
    }
}

pub open spec fn swap_count_all(es: Seq<ExprM>) -> nat
    decreases es,
{
    if es.len() == 0 {
        0
    } else {
        swap_count_all(es.drop_last()) + swap_count(es.last())
    }
}

/// Puts the operands of every commutative operator in canonical order, and counts the
/// swaps.
pub fn canonicalize(expr: &mut IrExpr) -> (count: usize)
    ensures
        final(expr)@ == canonical(old(expr)@),
        count == super::rewrite::sat(swap_count(old(expr)@)),
    decreases *old(expr),
{
    match expr {
        IrExpr::Const(_) | IrExpr::Ident(_) => 0,
        IrExpr::Binary { op, left, right } => {
            let a = canonicalize(left);
            let b = canonicalize(right);
            let count = a.saturating_add(b);
            if is_commutative(*op) && sorts_before(right, left) {
                std::mem::swap(left, right);
                count.saturating_add(1)
            } else {
                count
            }
        },
        IrExpr::Unary { operand, .. } => canonicalize(operand),
        IrExpr::Signed(operand) => canonicalize(operand),
        IrExpr::Ternary { cond, then_expr, else_expr } => {
            let a = canonicalize(cond);
            let b = canonicalize(then_expr);
            let c = canonicalize(else_expr);
            a.saturating_add(b).saturating_add(c)
        },
        IrExpr::Concat(exprs) => canonicalize_all(exprs),
        IrExpr::PartSelect { value, msb, lsb } => {
            let a = canonicalize(value);
            let b = canonicalize(msb);
            let c = canonicalize(lsb);
            a.saturating_add(b).saturating_add(c)
        },
        IrExpr::MemRead { index, .. } => canonicalize(index),
    }
}

fn canonicalize_all(es: &mut Vec<IrExpr>) -> (count: usize)
    ensures
        crate::ir::exprs_view(final(es)@) == canonical_all(crate::ir::exprs_view(old(es)@)),
        count == super::rewrite::sat(swap_count_all(crate::ir::exprs_view(old(es)@))),
    decreases *old(es),
{
    let mut i: usize = 0;
    let mut count: usize = 0;
    let n: usize = es.len();
    let ghost before = es@;
    let ghost model = crate::ir::exprs_view(before);
    assert(crate::ir::exprs_view(es@).take(0) =~= canonical_all(model.take(0)));
    while i < n
        invariant
            i <= n,
            n == es@.len(),
            n == before.len(),
            before == old(es)@,
            model == crate::ir::exprs_view(before),
            crate::ir::exprs_view(es@).take(i as int) == canonical_all(model.take(i as int)),
            count == super::rewrite::sat(swap_count_all(model.take(i as int))),
            forall|j: int| i <= j < n ==> es@[j] == before[j],
        decreases n - i,
    {
        let ghost cur = crate::ir::exprs_view(es@);
        assert(decreases_to!(before => before[i as int]));
        let c = canonicalize(&mut es[i]);
        count = count.saturating_add(c);
        proof {
            assert(model.take(i + 1).drop_last() == model.take(i as int));
            assert(model.take(i + 1).last() == before[i as int]@);
            assert(crate::ir::exprs_view(es@).take(i + 1) =~= cur.take(i as int).push(
                es@[i as int]@,
            ));
        }
        i = i + 1;
    }
    assert(crate::ir::exprs_view(es@).take(i as int) == crate::ir::exprs_view(es@));
    assert(model.take(i as int) == model);
    count
}

/// The assigns with canonical right-hand sides.
pub open spec fn canonical_assigns(s: Seq<crate::ir::AssignM>) -> Seq<crate::ir::AssignM> {
    Seq::new(s.len(), |i: int| crate::ir::AssignM { rhs: canonical(s[i].rhs), ..s[i] })
}

pub open spec fn swap_count_assigns(s: Seq<crate::ir::AssignM>) -> nat
    decreases s.len(),
{
    if s.len() == 0 {
        0
    } else {
        swap_count_assigns(s.drop_last()) + swap_count(s.last().rhs)
    }
}

/// Canonicalizes every right-hand side.
pub fn canonicalize_assigns(assigns: &mut Vec<IrAssign>) -> (count: usize)
    ensures
        crate::ir::assigns_view(final(assigns)@) == canonical_assigns(
            crate::ir::assigns_view(old(assigns)@),
        ),
        count == super::rewrite::sat(
            swap_count_assigns(crate::ir::assigns_view(old(assigns)@)),
        ),
{
    let mut i: usize = 0;
    let mut count: usize = 0;
    let n: usize = assigns.len();
    let ghost model = crate::ir::assigns_view(assigns@);
    while i < n
        invariant
            i <= n,
            n == assigns@.len(),
            n == model.len(),
            count == super::rewrite::sat(swap_count_assigns(model.take(i as int))),
            forall|j: int| i <= j < n ==> (#[trigger] assigns@[j])@ == model[j],
            forall|j: int|
                0 <= j < i ==> (#[trigger] assigns@[j])@ == canonical_assigns(model)[j],
        decreases n - i,
    {
        assert(assigns@[i as int]@ == model[i as int]);
        let c = canonicalize(&mut assigns[i].rhs);
        count = count.saturating_add(c);
        proof {
            assert(model.take(i + 1).drop_last() == model.take(i as int));
            assert(model.take(i + 1).last() == model[i as int]);
        }
        i = i + 1;
    }
    assert(crate::ir::assigns_view(assigns@) =~= canonical_assigns(model));
    assert(model.take(i as int) == model);
    count
}

/// Canonical operand order keeps the value of an expression.
pub proof fn law_canonical_keeps_value(e: ExprM, env: super::eval::Env)
    ensures
        super::eval::eval(canonical(e), env) == super::eval::eval(e, env),
    decreases e,
{
    match e {
        ExprM::Const(_) | ExprM::Ident(_) => {},
        ExprM::Binary { op, left, right } => {
            law_canonical_keeps_value(*left, env);
            law_canonical_keeps_value(*right, env);
            let l = canonical(*left);
            let r = canonical(*right);
            if super::rules::commutes(op) {
                super::value_laws::law_commutative_swap_keeps_value(op, l, r, env);
            }
        },
        ExprM::Unary { op, operand } => {
            law_canonical_keeps_value(*operand, env);
        },
        ExprM::Signed(x) => {
            law_canonical_keeps_value(*x, env);
        },
        ExprM::Ternary { cond, then_expr, else_expr } => {
            law_canonical_keeps_value(*cond, env);
            law_canonical_keeps_value(*then_expr, env);
            law_canonical_keeps_value(*else_expr, env);
        },
        ExprM::Concat(es) => {
            lemma_canonical_all(es, env);
        },
        ExprM::PartSelect { value, msb, lsb } => {
            law_canonical_keeps_value(*value, env);
            law_canonical_keeps_value(*msb, env);
            law_canonical_keeps_value(*lsb, env);
        },
        ExprM::MemRead { stem, index } => {
            law_canonical_keeps_value(*index, env);
        },
    }
}

proof fn lemma_canonical_all(es: Seq<ExprM>, env: super::eval::Env)
    ensures
        super::eval::eval_all(canonical_all(es), env) == super::eval::eval_all(es, env),
    decreases es,
{
    if es.len() > 0 {
        lemma_canonical_all(es.drop_last(), env);
        law_canonical_keeps_value(es.last(), env);
        let out = canonical_all(es);
        assert(out.drop_last() == canonical_all(es.drop_last()));
    }
}

proof fn lemma_text_lt_antisymmetric(a: Seq<char>, b: Seq<char>)
    ensures
        !(text_lt_both(a, b)),
    decreases a.len(),
{
    if a.len() > 0 && b.len() > 0 && a[0] == b[0] {
        lemma_text_lt_antisymmetric(a.drop_first(), b.drop_first());
    }
}

spec fn text_lt_both(a: Seq<char>, b: Seq<char>) -> bool {
    crate::text::text_lt(a, b) && crate::text::text_lt(b, a)
}

/// Canonicalizing twice is canonicalizing once: a canonical expression needs no swap.
pub proof fn law_canonical_is_stable(e: ExprM)
    ensures
        swap_count(canonical(e)) == 0,
        canonical(canonical(e)) == canonical(e),
    decreases e,
{
    match e {
        ExprM::Const(_) | ExprM::Ident(_) => {},
        ExprM::Binary { op, left, right } => {
            law_canonical_is_stable(*left);
            law_canonical_is_stable(*right);
            let l = canonical(*left);
            let r = canonical(*right);
            if let (ExprM::Ident(x), ExprM::Ident(y)) = (l, r) {
                lemma_text_lt_antisymmetric(x, y);
            }
            assert(!(key_lt(l, r) && key_lt(r, l)));
        },
        ExprM::Unary { op, operand } => {
            law_canonical_is_stable(*operand);
        },
        ExprM::Signed(x) => {
            law_canonical_is_stable(*x);
        },
        ExprM::Ternary { cond, then_expr, else_expr } => {
            law_canonical_is_stable(*cond);
            law_canonical_is_stable(*then_expr);
            law_canonical_is_stable(*else_expr);
        },
        ExprM::Concat(es) => {
            lemma_canonical_stable_all(es);
        },
        ExprM::PartSelect { value, msb, lsb } => {
            law_canonical_is_stable(*value);
            law_canonical_is_stable(*msb);
            law_canonical_is_stable(*lsb);
        },
        ExprM::MemRead { stem, index } => {
            law_canonical_is_stable(*index);
        },
    }
}

proof fn lemma_canonical_stable_all(es: Seq<ExprM>)
    ensures
        swap_count_all(canonical_all(es)) == 0,
        canonical_all(canonical_all(es)) == canonical_all(es),
    decreases es,
{
    if es.len() > 0 {
        lemma_canonical_stable_all(es.drop_last());
        law_canonical_is_stable(es.last());
        let out = canonical_all(es);
        assert(out.drop_last() == canonical_all(es.drop_last()));
    }
}

} // verus!
