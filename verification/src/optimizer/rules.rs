//! Single-node rewrite rules: algebraic simplification, peephole combining, code sinking.
//!
//! Each rule has a specification on models (`*_m`) that says which replacement, if any,
//! it offers for a node.
use super::eval::{eval_binop, eval_unaryop, is_const};
use crate::ir::{expr_eq, ExprM, IrBinOp, IrExpr, IrUnaryOp};
use vstd::prelude::*;

verus! {

/// First of two optional rewrites.
pub open spec fn first_of(a: Option<ExprM>, b: Option<ExprM>) -> Option<ExprM> {
    match a {
        Some(x) => Some(x),
        None => b,
    }
}

/// View of an optional expression.
pub open spec fn opt_view(e: Option<IrExpr>) -> Option<ExprM> {
    match e {
        Some(x) => Some(x@),
        None => None,
    }
}

/// The exponent `k < 63` with `n == 2^k`, if there is one.
pub open spec fn log2_of(n: i64) -> Option<i64> {
    if exists|k: nat| k < 63 && n == #[trigger] vstd::arithmetic::power2::pow2(k) {
        Some((choose|k: nat| k < 63 && n == #[trigger] vstd::arithmetic::power2::pow2(k)) as i64)
    } else {
        None
    }
}

pub proof fn lemma_log2_of(n: i64, k: nat)
    requires
        k < 63,
        n == vstd::arithmetic::power2::pow2(k),
    ensures
        log2_of(n) == Some(k as i64),
{
    let j = choose|j: nat| j < 63 && n == #[trigger] vstd::arithmetic::power2::pow2(j);
    if j < k {
        vstd::arithmetic::power2::lemma_pow2_strictly_increases(j, k);
    } else if k < j {
        vstd::arithmetic::power2::lemma_pow2_strictly_increases(k, j);
    }
}

/// Whether `n` is a positive power of two, and which.
pub fn log2_exact(n: i64) -> (r: Option<i64>)
    ensures
        r == log2_of(n),
{
    let mut p: i64 = 1;
    let mut k: i64 = 0;
    proof {
        vstd::arithmetic::power2::lemma2_to64();
        vstd::arithmetic::power2::lemma2_to64_rest();
    }
    while k < 63
        invariant
            0 <= k <= 63,
            k < 63 ==> p == vstd::arithmetic::power2::pow2(k as nat),
            forall|j: nat| j < k ==> n != #[trigger] vstd::arithmetic::power2::pow2(j),
        decreases 63 - k,
    {
        if p == n {
            proof {
                lemma_log2_of(n, k as nat);
            }
            return Some(k);
        }
        if k < 62 {
            proof {
                vstd::arithmetic::power2::lemma_pow2_unfold((k + 1) as nat);
                vstd::arithmetic::power2::lemma2_to64();
                vstd::arithmetic::power2::lemma2_to64_rest();
                if k + 1 < 62 {
                    vstd::arithmetic::power2::lemma_pow2_strictly_increases((k + 1) as nat, 62);
                }
            }
            p = p * 2;
        }
        k = k + 1;
    }
    None
}

pub open spec fn commutes(op: IrBinOp) -> bool {
    ||| op == IrBinOp::Add
    ||| op == IrBinOp::Mul
    ||| op == IrBinOp::And
    ||| op == IrBinOp::Or
    ||| op == IrBinOp::Xor
    ||| op == IrBinOp::Eq
    ||| op == IrBinOp::Ne
    ||| op == IrBinOp::LogAnd
    ||| op == IrBinOp::LogOr
}

pub fn is_commutative(op: IrBinOp) -> (r: bool)
    ensures
        r == commutes(op),
{
    matches!(
        op,
        IrBinOp::Add | IrBinOp::Mul | IrBinOp::And | IrBinOp::Or | IrBinOp::Xor | IrBinOp::Eq
            | IrBinOp::Ne | IrBinOp::LogAnd | IrBinOp::LogOr
    )
}

/// Absorption under `inner`: `a` where `rhs` is `a inner b` or `b inner a`.
pub open spec fn absorption_m(inner: IrBinOp, a: ExprM, rhs: ExprM) -> Option<ExprM> {
    match rhs {
        ExprM::Binary { op, left, right } => if op == inner && (*left == a || *right == a) {
            Some(a)
        } else {
            None
        },
        _ => None,
    }
}

/// Absorption: a & (a | b) → a
fn try_absorption_and(a: &IrExpr, rhs: &IrExpr) -> (r: Option<IrExpr>)
    ensures
        opt_view(r) == absorption_m(IrBinOp::Or, a@, rhs@),
{
    if let IrExpr::Binary { op, left, right } = rhs {
        if *op == IrBinOp::Or && (expr_eq(left, a) || expr_eq(right, a)) {
            return Some(a.clone());
        }
    }
    None
}

/// Absorption: a | (a & b) → a
fn try_absorption_or(a: &IrExpr, rhs: &IrExpr) -> (r: Option<IrExpr>)
    ensures
        opt_view(r) == absorption_m(IrBinOp::And, a@, rhs@),
{
    if let IrExpr::Binary { op, left, right } = rhs {
        if *op == IrBinOp::And && (expr_eq(left, a) || expr_eq(right, a)) {
            return Some(a.clone());
        }
    }
    None
}

/// `e` where `c` holds.
pub open spec fn when(c: bool, e: ExprM) -> Option<ExprM> {
    if c {
        Some(e)
    } else {
        None
    }
}

/// Identity, annihilator, idempotence and absorption rules.
pub open spec fn identity_m(op: IrBinOp, l: ExprM, r: ExprM) -> Option<ExprM> {
    let zero = ExprM::Const(0);
    let one = ExprM::Const(1);
    match op {
        IrBinOp::Add => first_of(when(r == zero, l), when(l == zero, r)),
        IrBinOp::Sub => first_of(when(r == zero, l), when(l == r, zero)),
        IrBinOp::Mul => first_of(
            when(r == zero || l == zero, zero),
            first_of(when(r == one, l), when(l == one, r)),
        ),
        IrBinOp::Div => first_of(when(r == one, l), when(l == r, one)),
        IrBinOp::Mod => when(l == r, zero),
        IrBinOp::And => first_of(
            when(r == zero || l == zero, zero),
            first_of(
                when(l == r, l),
                first_of(absorption_m(IrBinOp::Or, l, r), absorption_m(IrBinOp::Or, r, l)),
            ),
        ),
        IrBinOp::Or => first_of(
            when(r == zero, l),
            first_of(
                when(l == zero, r),
                first_of(
                    when(l == r, l),
                    first_of(absorption_m(IrBinOp::And, l, r), absorption_m(IrBinOp::And, r, l)),
                ),
            ),
        ),
        IrBinOp::Xor => first_of(
            when(r == zero, l),
            first_of(when(l == zero, r), when(l == r, zero)),
        ),
        IrBinOp::Shl | IrBinOp::Shr | IrBinOp::Ashr => when(r == zero, l),
        IrBinOp::Eq | IrBinOp::Le | IrBinOp::Ge => when(l == r, one),
        IrBinOp::Ne | IrBinOp::Lt | IrBinOp::Gt => when(l == r, zero),
        IrBinOp::LogAnd => when(l == zero || r == zero, zero),
        IrBinOp::LogOr => when(
            (l is Const && l != zero) || (r is Const && r != zero),
            one,
        ),
    }
}

fn is_nonzero_const(e: &IrExpr) -> (r: bool)
    ensures
        r == (e@ is Const && e@ != ExprM::Const(0)),
{
    if let IrExpr::Const(v) = e {
        *v != 0
    } else {
        false
    }
}

pub fn try_identity(op: IrBinOp, left: &IrExpr, right: &IrExpr) -> (r: Option<IrExpr>)
    ensures
        opt_view(r) == identity_m(op, left@, right@),
{
    match op {
        IrBinOp::Add => {
            if is_const(right, 0) {
                return Some(left.clone());
            }
            if is_const(left, 0) {
                return Some(right.clone());
            }
            None
        },
        IrBinOp::Sub => {
            if is_const(right, 0) {
                return Some(left.clone());
            }
            if expr_eq(left, right) {
                return Some(IrExpr::Const(0));
            }
            None
        },
        IrBinOp::Mul => {
            if is_const(right, 0) || is_const(left, 0) {
                return Some(IrExpr::Const(0));
            }
            if is_const(right, 1) {
                return Some(left.clone());
            }
            if is_const(left, 1) {
                return Some(right.clone());
            }
            None
        },
        IrBinOp::Div => {
            if is_const(right, 1) {
                return Some(left.clone());
            }
            if expr_eq(left, right) {
                return Some(IrExpr::Const(1));
            }
            None
        },
        IrBinOp::Mod => {
            if expr_eq(left, right) {
                return Some(IrExpr::Const(0));
            }
            None
        },
        IrBinOp::And => {
            if is_const(right, 0) || is_const(left, 0) {
                return Some(IrExpr::Const(0));
            }
            if expr_eq(left, right) {
                return Some(left.clone());
            }
            match try_absorption_and(left, right) {
                Some(a) => Some(a),
                None => try_absorption_and(right, left),
            }
        },
        IrBinOp::Or => {
            if is_const(right, 0) {
                return Some(left.clone());
            }
            if is_const(left, 0) {
                return Some(right.clone());
            }
            if expr_eq(left, right) {
                return Some(left.clone());
            }
            match try_absorption_or(left, right) {
                Some(a) => Some(a),
                None => try_absorption_or(right, left),
            }
        },
        IrBinOp::Xor => {
            if is_const(right, 0) {
                return Some(left.clone());
            }
            if is_const(left, 0) {
                return Some(right.clone());
            }
            if expr_eq(left, right) {
                return Some(IrExpr::Const(0));
            }
            None
        },
        IrBinOp::Shl | IrBinOp::Shr | IrBinOp::Ashr => {
            if is_const(right, 0) {
                return Some(left.clone());
            }
            None
        },
        IrBinOp::Eq | IrBinOp::Le | IrBinOp::Ge => {
            if expr_eq(left, right) {
                return Some(IrExpr::Const(1));
            }
            None
        },
        IrBinOp::Ne | IrBinOp::Lt | IrBinOp::Gt => {
            if expr_eq(left, right) {
                return Some(IrExpr::Const(0));
            }
            None
        },
        IrBinOp::LogAnd => {
            if is_const(left, 0) || is_const(right, 0) {
                return Some(IrExpr::Const(0));
            }
            None
        },
        IrBinOp::LogOr => {
            if is_nonzero_const(left) || is_nonzero_const(right) {
                return Some(IrExpr::Const(1));
            }
            None
        },
    }
}

/// `n` where `e` is the constant `n == 2^k`, as the exponent `k`.
pub open spec fn log2_const(e: ExprM) -> Option<i64> {
    match e {
        ExprM::Const(n) => log2_of(n),
        _ => None,
    }
}

/// Multiplication, division and remainder by a power of two.
pub open spec fn strength_m(op: IrBinOp, l: ExprM, r: ExprM) -> Option<ExprM> {
    match op {
        IrBinOp::Mul => match log2_const(r) {
            Some(k) => Some(crate::ir::bin_m(IrBinOp::Shl, l, ExprM::Const(k))),
            None => match log2_const(l) {
                Some(k) => Some(crate::ir::bin_m(IrBinOp::Shl, r, ExprM::Const(k))),
                None => None,
            },
        },
        IrBinOp::Div => match log2_const(r) {
            Some(k) => Some(crate::ir::bin_m(IrBinOp::Shr, l, ExprM::Const(k))),
            None => None,
        },
        IrBinOp::Mod => match log2_const(r) {
            Some(k) => Some(
                crate::ir::bin_m(IrBinOp::And, l, ExprM::Const((r->Const_0 - 1) as i64)),
            ),
            None => None,
        },
        _ => None,
    }
}

fn log2_expr(e: &IrExpr) -> (r: Option<i64>)
    ensures
        r == log2_const(e@),
{
    match e {
        IrExpr::Const(n) => log2_exact(*n),
        _ => None,
    }
}

fn binary(op: IrBinOp, left: IrExpr, right: IrExpr) -> (r: IrExpr)
    ensures
        r@ == crate::ir::bin_m(op, left@, right@),
{
    IrExpr::Binary { op, left: Box::new(left), right: Box::new(right) }
}

pub fn try_strength_reduction(op: IrBinOp, left: &IrExpr, right: &IrExpr) -> (r: Option<IrExpr>)
    ensures
        opt_view(r) == strength_m(op, left@, right@),
{
    match op {
        IrBinOp::Mul => {
            if let Some(shift) = log2_expr(right) {
                return Some(binary(IrBinOp::Shl, left.clone(), IrExpr::Const(shift)));
            }
            if let Some(shift) = log2_expr(left) {
                return Some(binary(IrBinOp::Shl, right.clone(), IrExpr::Const(shift)));
            }
            None
        },
        IrBinOp::Div => {
            if let Some(shift) = log2_expr(right) {
                return Some(binary(IrBinOp::Shr, left.clone(), IrExpr::Const(shift)));
            }
            None
        },
        IrBinOp::Mod => {
            if let IrExpr::Const(n) = right {
                if log2_exact(*n).is_some() {
                    proof {
                        let k = choose|k: nat|
                            k < 63 && *n == #[trigger] vstd::arithmetic::power2::pow2(k);
                        vstd::arithmetic::power2::lemma_pow2_pos(k);
                    }
                    return Some(binary(IrBinOp::And, left.clone(), IrExpr::Const(*n - 1)));
                }
            }
            None
        },
        _ => None,
    }
}

/// `a` is `~b`.
pub open spec fn is_complement_m(a: ExprM, b: ExprM) -> bool {
    a == crate::ir::un_m(IrUnaryOp::Not, b)
}

/// Complement rules: x & ~x → 0, x | ~x → all-ones, x ^ ~x → all-ones.
pub open spec fn complement_m(op: IrBinOp, l: ExprM, r: ExprM) -> Option<ExprM> {
    if !(is_complement_m(l, r) || is_complement_m(r, l)) {
        None
    } else {
        match op {
            IrBinOp::And => Some(ExprM::Const(0)),
            IrBinOp::Or | IrBinOp::Xor => Some(ExprM::Const((-1) as i64)),
            _ => None,
        }
    }
}

fn is_complement(a: &IrExpr, b: &IrExpr) -> (r: bool)
    ensures
        r == is_complement_m(a@, b@),
{
    if let IrExpr::Unary { op, operand } = a {
        *op == IrUnaryOp::Not && expr_eq(operand, b)
    } else {
        false
    }
}

pub fn try_complement(op: IrBinOp, left: &IrExpr, right: &IrExpr) -> (r: Option<IrExpr>)
    ensures
        opt_view(r) == complement_m(op, left@, right@),
{
    if !(is_complement(left, right) || is_complement(right, left)) {
        return None;
    }
    match op {
        IrBinOp::And => Some(IrExpr::Const(0)),
        IrBinOp::Or => Some(IrExpr::Const(-1)),
        IrBinOp::Xor => Some(IrExpr::Const(-1)),
        _ => None,
    }
}

/// The operators that are both associative and commutative.
pub open spec fn associates(op: IrBinOp) -> bool {
    ||| op == IrBinOp::Add
    ||| op == IrBinOp::Mul
    ||| op == IrBinOp::And
    ||| op == IrBinOp::Or
    ||| op == IrBinOp::Xor
}

/// `x op (c1 op c2)` where `nested` is `x op c1` and `c2` is a constant.
pub open spec fn regroup_m(op: IrBinOp, nested: ExprM, outer: ExprM) -> Option<ExprM> {
    match (nested, outer) {
        (
            ExprM::Binary { op: inner_op, left: x, right: c },
            ExprM::Const(c2),
        ) => if inner_op == op && *c is Const {
            Some(
                crate::ir::bin_m(
                    op,
                    *x,
                    ExprM::Const(super::eval::binop_value(op, c->Const_0, c2)->0),
                ),
            )
        } else {
            None
        },
        _ => None,
    }
}

/// Reassociation: `(x op c1) op c2` and `c1 op (x op c2)` → `x op (c1 op c2)`.
pub open spec fn reassociate_m(op: IrBinOp, l: ExprM, r: ExprM) -> Option<ExprM> {
    if associates(op) {
        first_of(regroup_m(op, l, r), regroup_swapped_m(op, l, r))
    } else {
        None
    }
}

/// `x op (c1 op c2)` where the left operand is `c1` and the right one is `x op c2`.
pub open spec fn regroup_swapped_m(op: IrBinOp, l: ExprM, r: ExprM) -> Option<ExprM> {
    match (l, r) {
        (
            ExprM::Const(c1),
            ExprM::Binary { op: inner_op, left: x, right: c },
        ) => if inner_op == op && *c is Const {
            Some(
                crate::ir::bin_m(
                    op,
                    *x,
                    ExprM::Const(super::eval::binop_value(op, c1, c->Const_0)->0),
                ),
            )
        } else {
            None
        },
        _ => None,
    }
}

pub fn try_reassociate(op: IrBinOp, left: &IrExpr, right: &IrExpr) -> (r: Option<IrExpr>)
    ensures
        opt_view(r) == reassociate_m(op, left@, right@),
{
    proof {
        reveal_with_fuel(IrExpr::view, 3);
    }
    if !matches!(
        op,
        IrBinOp::Add | IrBinOp::Mul | IrBinOp::And | IrBinOp::Or | IrBinOp::Xor
    ) {
        return None;
    }
    if let IrExpr::Const(c2) = right {
        if let IrExpr::Binary { op: inner_op, left: x, right: c1_box } = left {
            if *inner_op == op {
                if let IrExpr::Const(c1) = &**c1_box {
                    if let Some(combined) = eval_binop(op, *c1, *c2) {
                        return Some(binary(op, (**x).clone(), IrExpr::Const(combined)));
                    }
                }
            }
        }
    }
    if let IrExpr::Const(c1) = left {
        if let IrExpr::Binary { op: inner_op, left: x, right: c2_box } = right {
            if *inner_op == op {
                if let IrExpr::Const(c2) = &**c2_box {
                    if let Some(combined) = eval_binop(op, *c1, *c2) {
                        return Some(binary(op, (**x).clone(), IrExpr::Const(combined)));
                    }
                }
            }
        }
    }
    None
}

/// Rewrites of a binary node: constant folding, then identities, strength reduction,
/// complements and reassociation, the first that applies.
pub open spec fn rewrite_binary_m(op: IrBinOp, l: ExprM, r: ExprM) -> Option<ExprM> {
    if l is Const && r is Const && super::eval::binop_value(op, l->Const_0, r->Const_0) is Some {
        Some(ExprM::Const(super::eval::binop_value(op, l->Const_0, r->Const_0)->0))
    } else {
        first_of(
            identity_m(op, l, r),
            first_of(
                strength_m(op, l, r),
                first_of(complement_m(op, l, r), reassociate_m(op, l, r)),
            ),
        )
    }
}

/// Rewrites of a unary node: constant folding, double negation, De Morgan push-in.
pub open spec fn rewrite_unary_m(op: IrUnaryOp, x: ExprM) -> Option<ExprM> {
    match x {
        ExprM::Const(v) => Some(ExprM::Const(super::eval::unop_value(op, v))),
        ExprM::Unary { op: inner_op, operand } => when(op == inner_op, *operand),
        ExprM::Binary { op: bin_op, left, right } => if op == IrUnaryOp::Not && bin_op
            == IrBinOp::And {
            Some(
                crate::ir::bin_m(
                    IrBinOp::Or,
                    crate::ir::un_m(IrUnaryOp::Not, *left),
                    crate::ir::un_m(IrUnaryOp::Not, *right),
                ),
            )
        } else if op == IrUnaryOp::Not && bin_op == IrBinOp::Or {
            Some(
                crate::ir::bin_m(
                    IrBinOp::And,
                    crate::ir::un_m(IrUnaryOp::Not, *left),
                    crate::ir::un_m(IrUnaryOp::Not, *right),
                ),
            )
        } else {
            None
        },
        _ => None,
    }
}

/// Rewrites of a conditional: constant condition, equal arms.
pub open spec fn rewrite_ternary_m(c: ExprM, t: ExprM, e: ExprM) -> Option<ExprM> {
    match c {
        ExprM::Const(v) => Some(
            if v != 0 {
                t
            } else {
                e
            },
        ),
        _ => when(t == e, t),
    }
}

/// The algebraic replacement of a node, if one applies.
pub open spec fn rewrite_m(e: ExprM) -> Option<ExprM> {
    match e {
        ExprM::Binary { op, left, right } => rewrite_binary_m(op, *left, *right),
        ExprM::Unary { op, operand } => rewrite_unary_m(op, *operand),
        ExprM::Ternary { cond, then_expr, else_expr } => rewrite_ternary_m(
            *cond,
            *then_expr,
            *else_expr,
        ),
        _ => None,
    }
}

fn not_of(e: &IrExpr) -> (r: IrExpr)
    ensures
        r@ == crate::ir::un_m(IrUnaryOp::Not, e@),
{
    IrExpr::Unary { op: IrUnaryOp::Not, operand: Box::new(e.clone()) }
}

fn rewrite_binary(op: IrBinOp, left: &IrExpr, right: &IrExpr) -> (r: Option<IrExpr>)
    ensures
        opt_view(r) == rewrite_binary_m(op, left@, right@),
{
    if let (IrExpr::Const(l), IrExpr::Const(r)) = (left, right) {
        if let Some(result) = eval_binop(op, *l, *r) {
            return Some(IrExpr::Const(result));
        }
    }
    if let Some(e) = try_identity(op, left, right) {
        return Some(e);
    }
    if let Some(e) = try_strength_reduction(op, left, right) {
        return Some(e);
    }
    if let Some(e) = try_complement(op, left, right) {
        return Some(e);
    }
    try_reassociate(op, left, right)
}

fn rewrite_unary(op: IrUnaryOp, operand: &IrExpr) -> (r: Option<IrExpr>)
    ensures
        opt_view(r) == rewrite_unary_m(op, operand@),
{
    match operand {
        IrExpr::Const(v) => Some(IrExpr::Const(eval_unaryop(op, *v))),
        // ~~x → x, !!x → x, -(-x) → x
        IrExpr::Unary { op: inner_op, operand: inner } => {
            if op == *inner_op {
                Some((**inner).clone())
            } else {
                None
            }
        },
        // ~(a & b) → ~a | ~b, ~(a | b) → ~a & ~b
        IrExpr::Binary { op: bin_op, left, right } => {
            if op == IrUnaryOp::Not && *bin_op == IrBinOp::And {
                Some(binary(IrBinOp::Or, not_of(left), not_of(right)))
            } else if op == IrUnaryOp::Not && *bin_op == IrBinOp::Or {
                Some(binary(IrBinOp::And, not_of(left), not_of(right)))
            } else {
                None
            }
        },
        _ => None,
    }
}

pub fn try_rewrite(expr: &IrExpr) -> (r: Option<IrExpr>)
    ensures
        opt_view(r) == rewrite_m(expr@),
{
    proof {
        reveal_with_fuel(IrExpr::view, 3);
    }
    match expr {
        IrExpr::Binary { op, left, right } => rewrite_binary(*op, left, right),
        IrExpr::Unary { op, operand } => rewrite_unary(*op, operand),
        IrExpr::Ternary { cond, then_expr, else_expr } => {
            if let IrExpr::Const(c) = &**cond {
                return if *c != 0 {
                    Some((**then_expr).clone())
                } else {
                    Some((**else_expr).clone())
                };
            }
            if expr_eq(then_expr, else_expr) {
                return Some((**then_expr).clone());
            }
            None
        },
        _ => None,
    }
}

/// `(c ? a : b) op k → c ? (a op k) : (b op k)` where `a`, `b` and `k` are constants, and
/// the mirrored form.
pub open spec fn distribute_m(op: IrBinOp, l: ExprM, r: ExprM) -> Option<ExprM> {
    match l {
        ExprM::Ternary { cond, then_expr, else_expr } => if *then_expr is Const && *else_expr is Const
            && r is Const {
            Some(
                crate::ir::ternary_m(
                    *cond,
                    crate::ir::bin_m(op, *then_expr, r),
                    crate::ir::bin_m(op, *else_expr, r),
                ),
            )
        } else {
            None
        },
        _ => match r {
            ExprM::Ternary { cond, then_expr, else_expr } => if *then_expr is Const
                && *else_expr is Const && l is Const {
                Some(
                    crate::ir::ternary_m(
                        *cond,
                        crate::ir::bin_m(op, l, *then_expr),
                        crate::ir::bin_m(op, l, *else_expr),
                    ),
                )
            } else {
                None
            },
            _ => None,
        },
    }
}

/// The operand of a negation.
pub open spec fn negated(e: ExprM) -> Option<ExprM> {
    match e {
        ExprM::Unary { op, operand } => if op == IrUnaryOp::Neg {
            Some(*operand)
        } else {
            None
        },
        _ => None,
    }
}

/// The mask that keeps the low `64 - n` bits.
pub open spec fn low_mask(n: i64) -> i64 {
    i64::MAX >> ((n - 1) as u32)
}

/// Combining rules on a binary node.
pub open spec fn combine_m(op: IrBinOp, l: ExprM, r: ExprM) -> Option<ExprM> {
    match op {
        // a + a → a << 1; -a + b → b - a; a + -b → a - b
        IrBinOp::Add => if l == r {
            Some(crate::ir::bin_m(IrBinOp::Shl, l, ExprM::Const(1)))
        } else {
            match (negated(l), negated(r)) {
                (Some(a), _) => Some(crate::ir::bin_m(IrBinOp::Sub, r, a)),
                (None, Some(b)) => Some(crate::ir::bin_m(IrBinOp::Sub, l, b)),
                _ => None,
            }
        },
        // (a << n) >> n → a & mask
        IrBinOp::Shr => match (l, r) {
            (
                ExprM::Binary { op: inner_op, left: inner, right: amount },
                ExprM::Const(n),
            ) => if inner_op == IrBinOp::Shl && *amount == r && 0 < n < 64 {
                Some(crate::ir::bin_m(IrBinOp::And, *inner, ExprM::Const(low_mask(n))))
            } else {
                None
            },
            _ => None,
        },
        // a - (-b) → a + b
        IrBinOp::Sub => match negated(r) {
            Some(b) => Some(crate::ir::bin_m(IrBinOp::Add, l, b)),
            None => None,
        },
        _ => None,
    }
}

/// The peephole replacement of a node, if one applies.
pub open spec fn peephole_m(e: ExprM) -> Option<ExprM> {
    match e {
        ExprM::Binary { op, left, right } => first_of(
            distribute_m(op, *left, *right),
            combine_m(op, *left, *right),
        ),
        _ => None,
    }
}

fn is_any_const(e: &IrExpr) -> (r: bool)
    ensures
        r == (e@ is Const),
{
    matches!(e, IrExpr::Const(_))
}

fn ternary(cond: IrExpr, t: IrExpr, e: IrExpr) -> (r: IrExpr)
    ensures
        r@ == crate::ir::ternary_m(cond@, t@, e@),
{
    IrExpr::Ternary { cond: Box::new(cond), then_expr: Box::new(t), else_expr: Box::new(e) }
}

fn try_distribute(op: IrBinOp, left: &IrExpr, right: &IrExpr) -> (r: Option<IrExpr>)
    ensures
        opt_view(r) == distribute_m(op, left@, right@),
{
    if let IrExpr::Ternary { cond, then_expr, else_expr } = left {
        if is_any_const(then_expr) && is_any_const(else_expr) && is_any_const(right) {
            return Some(
                ternary(
                    (**cond).clone(),
                    binary(op, (**then_expr).clone(), right.clone()),
                    binary(op, (**else_expr).clone(), right.clone()),
                ),
            );
        }
    }
    if let IrExpr::Ternary { cond, then_expr, else_expr } = right {
        if is_any_const(then_expr) && is_any_const(else_expr) && is_any_const(left) {
            return Some(
                ternary(
                    (**cond).clone(),
                    binary(op, left.clone(), (**then_expr).clone()),
                    binary(op, left.clone(), (**else_expr).clone()),
                ),
            );
        }
    }
    None
}

fn negated_operand(e: &IrExpr) -> (r: Option<&IrExpr>)
    ensures
        match r {
            Some(x) => negated(e@) == Some(x@),
            None => negated(e@) is None,
        },
{
    if let IrExpr::Unary { op, operand } = e {
        if *op == IrUnaryOp::Neg {
            return Some(operand);
        }
    }
    None
}

fn mask_low(n: i64) -> (r: i64)
    requires
        0 < n < 64,
    ensures
        r == low_mask(n),
{
    i64::MAX.wrapping_shr((n - 1) as u32)
}

fn try_combine(op: IrBinOp, left: &IrExpr, right: &IrExpr) -> (r: Option<IrExpr>)
    ensures
        opt_view(r) == combine_m(op, left@, right@),
{
    match op {
        IrBinOp::Add => {
            if expr_eq(left, right) {
                return Some(binary(IrBinOp::Shl, left.clone(), IrExpr::Const(1)));
            }
            if let Some(a) = negated_operand(left) {
                return Some(binary(IrBinOp::Sub, right.clone(), a.clone()));
            }
            if let Some(b) = negated_operand(right) {
                return Some(binary(IrBinOp::Sub, left.clone(), b.clone()));
            }
            None
        },
        IrBinOp::Shr => {
            if let IrExpr::Binary { op: inner_op, left: inner, right: amount } = left {
                if *inner_op == IrBinOp::Shl && expr_eq(amount, right) {
                    if let IrExpr::Const(n) = right {
                        if *n > 0 && *n < 64 {
                            return Some(
                                binary(
                                    IrBinOp::And,
                                    (**inner).clone(),
                                    IrExpr::Const(mask_low(*n)),
                                ),
                            );
                        }
                    }
                }
            }
            None
        },
        IrBinOp::Sub => {
            if let Some(b) = negated_operand(right) {
                return Some(binary(IrBinOp::Add, left.clone(), b.clone()));
            }
            None
        },
        _ => None,
    }
}

pub fn try_peephole(expr: &IrExpr) -> (r: Option<IrExpr>)
    ensures
        opt_view(r) == peephole_m(expr@),
{
    if let IrExpr::Binary { op, left, right } = expr {
        match try_distribute(*op, left, right) {
            Some(e) => Some(e),
            None => try_combine(*op, left, right),
        }
    } else {
        None
    }
}

/// `c ? (a op x) : (b op x) → (c ? a : b) op x` and `c ? (x op a) : (x op b) → x op (c ? a : b)`,
/// where the common operand is not a constant.
pub open spec fn factor_m(c: ExprM, t: ExprM, e: ExprM) -> Option<ExprM> {
    match (t, e) {
        (
            ExprM::Binary { op: op1, left: l1, right: r1 },
            ExprM::Binary { op: op2, left: l2, right: r2 },
        ) => if op1 == op2 && *r1 == *r2 && !(*r1 is Const) {
            Some(crate::ir::bin_m(op1, crate::ir::ternary_m(c, *l1, *l2), *r1))
        } else if op1 == op2 && *l1 == *l2 && !(*l1 is Const) {
            Some(crate::ir::bin_m(op1, *l1, crate::ir::ternary_m(c, *r1, *r2)))
        } else {
            None
        },
        _ => None,
    }
}

/// `c ? (c ? a : b) : e → c ? a : e`.
pub open spec fn nested_then_m(c: ExprM, t: ExprM, e: ExprM) -> Option<ExprM> {
    match t {
        ExprM::Ternary { cond, then_expr, .. } => when(
            c == *cond,
            crate::ir::ternary_m(c, *then_expr, e),
        ),
        _ => None,
    }
}

/// `c ? a : (c ? b : e) → c ? a : e`.
pub open spec fn nested_else_m(c: ExprM, t: ExprM, e: ExprM) -> Option<ExprM> {
    match e {
        ExprM::Ternary { cond, else_expr, .. } => when(
            c == *cond,
            crate::ir::ternary_m(c, t, *else_expr),
        ),
        _ => None,
    }
}

/// The code-sinking replacement of a node, if one applies.
pub open spec fn sink_m(e: ExprM) -> Option<ExprM> {
    match e {
        ExprM::Ternary { cond, then_expr, else_expr } => first_of(
            nested_then_m(*cond, *then_expr, *else_expr),
            first_of(
                nested_else_m(*cond, *then_expr, *else_expr),
                factor_m(*cond, *then_expr, *else_expr),
            ),
        ),
        _ => None,
    }
}

fn try_factor(cond: &IrExpr, then_expr: &IrExpr, else_expr: &IrExpr) -> (r: Option<IrExpr>)
    ensures
        opt_view(r) == factor_m(cond@, then_expr@, else_expr@),
{
    if let IrExpr::Binary { op: op1, left: l1, right: r1 } = then_expr {
        if let IrExpr::Binary { op: op2, left: l2, right: r2 } = else_expr {
            if *op1 == *op2 {
                if expr_eq(r1, r2) && !is_any_const(r1) {
                    return Some(
                        binary(
                            *op1,
                            ternary(cond.clone(), (**l1).clone(), (**l2).clone()),
                            (**r1).clone(),
                        ),
                    );
                }
                if expr_eq(l1, l2) && !is_any_const(l1) {
                    return Some(
                        binary(
                            *op1,
                            (**l1).clone(),
                            ternary(cond.clone(), (**r1).clone(), (**r2).clone()),
                        ),
                    );
                }
            }
        }
    }
    None
}

pub fn try_sink(expr: &IrExpr) -> (r: Option<IrExpr>)
    ensures
        opt_view(r) == sink_m(expr@),
{
    proof {
        reveal_with_fuel(IrExpr::view, 3);
    }
    if let IrExpr::Ternary { cond, then_expr, else_expr } = expr {
        if let IrExpr::Ternary { cond: inner_cond, then_expr: inner_then, .. } = &**then_expr {
            if expr_eq(cond, inner_cond) {
                return Some(
                    ternary((**cond).clone(), (**inner_then).clone(), (**else_expr).clone()),
                );
            }
        }
        if let IrExpr::Ternary { cond: inner_cond, else_expr: inner_else, .. } = &**else_expr {
            if expr_eq(cond, inner_cond) {
                return Some(
                    ternary((**cond).clone(), (**then_expr).clone(), (**inner_else).clone()),
                );
            }
        }
        try_factor(cond, then_expr, else_expr)
    } else {
        None
    }
}

} // verus!
