//! Constant evaluation of operators, and the value of an expression in an environment.
use crate::arith::{arith_shr_i64, div_wrapping, rem_wrapping};
use crate::ir::{ExprM, IrBinOp, IrExpr, IrUnaryOp};
use vstd::prelude::*;

verus! {

pub open spec fn flag(b: bool) -> i64 {
    if b {
        1
    } else {
        0
    }
}

/// Value of `l op r`; `None` for a division or remainder by zero.
pub open spec fn binop_value(op: IrBinOp, l: i64, r: i64) -> Option<i64> {
    match op {
        IrBinOp::Add => Some(crate::arith::wrap64(l + r)),
        IrBinOp::Sub => Some(crate::arith::wrap64(l - r)),
        IrBinOp::Mul => Some(crate::arith::wrap64(l * r)),
        IrBinOp::Div => if r == 0 {
            None
        } else {
            Some(crate::arith::wrap64(crate::arith::div_trunc(l as int, r as int)))
        },
        IrBinOp::Mod => if r == 0 {
            None
        } else {
            Some(crate::arith::rem_trunc(l as int, r as int) as i64)
        },
        IrBinOp::And => Some(l & r),
        IrBinOp::Or => Some(l | r),
        IrBinOp::Xor => Some(l ^ r),
        IrBinOp::Shl => Some(l << ((r as u32) % 64)),
        IrBinOp::Shr => Some(((l as u64) >> ((r as u32) % 64)) as i64),
        IrBinOp::Ashr => Some(crate::arith::arith_shr(l, r as u32, 64)),
        IrBinOp::LogAnd => Some(flag(l != 0 && r != 0)),
        IrBinOp::LogOr => Some(flag(l != 0 || r != 0)),
        IrBinOp::Eq => Some(flag(l == r)),
        IrBinOp::Ne => Some(flag(l != r)),
        IrBinOp::Lt => Some(flag(l < r)),
        IrBinOp::Le => Some(flag(l <= r)),
        IrBinOp::Gt => Some(flag(l > r)),
        IrBinOp::Ge => Some(flag(l >= r)),
    }
}

/// Value of `op v`.
pub open spec fn unop_value(op: IrUnaryOp, v: i64) -> i64 {
    match op {
        IrUnaryOp::Not => !v,
        IrUnaryOp::LogNot => flag(v == 0),
        IrUnaryOp::Neg => crate::arith::wrap64(-v),
    }
}

fn flag_of(b: bool) -> (r: i64)
    ensures
        r == flag(b),
{
    if b {
        1
    } else {
        0
    }
}

/// Folds a binary operator over two constants.
pub fn eval_binop(op: IrBinOp, l: i64, r: i64) -> (v: Option<i64>)
    ensures
        v == binop_value(op, l, r),
{
    proof {
        crate::arith::lemma_wrap64(l + r);
        crate::arith::lemma_wrap64(l - r);
        crate::arith::lemma_wrap64(crate::arith::div_trunc(l as int, r as int));
        if l == i64::MIN && r == -1 {
            assert(crate::arith::div_trunc(l as int, r as int) == 0x8000_0000_0000_0000int) by {
                assert(0x8000_0000_0000_0000int / 1int == 0x8000_0000_0000_0000int);
            }
        }
    }
    Some(
        match op {
            IrBinOp::Add => l.wrapping_add(r),
            IrBinOp::Sub => l.wrapping_sub(r),
            IrBinOp::Mul => l.wrapping_mul(r),
            IrBinOp::Div => {
                if r == 0 {
                    return None;
                }
                div_wrapping(l, r)
            },
            IrBinOp::Mod => {
                if r == 0 {
                    return None;
                }
                rem_wrapping(l, r)
            },
            IrBinOp::And => l & r,
            IrBinOp::Or => l | r,
            IrBinOp::Xor => l ^ r,
            IrBinOp::Shl => l.wrapping_shl(r as u32),
            IrBinOp::Shr => ((l as u64).wrapping_shr(r as u32)) as i64,
            IrBinOp::Ashr => arith_shr_i64(l, r as u32, 64),
            IrBinOp::LogAnd => flag_of(l != 0 && r != 0),
            IrBinOp::LogOr => flag_of(l != 0 || r != 0),
            IrBinOp::Eq => flag_of(l == r),
            IrBinOp::Ne => flag_of(l != r),
            IrBinOp::Lt => flag_of(l < r),
            IrBinOp::Le => flag_of(l <= r),
            IrBinOp::Gt => flag_of(l > r),
            IrBinOp::Ge => flag_of(l >= r),
        },
    )
}

/// Folds a unary operator over a constant.
pub fn eval_unaryop(op: IrUnaryOp, v: i64) -> (r: i64)
    ensures
        r == unop_value(op, v),
{
    proof {
        crate::arith::lemma_wrap64(-v as int);
    }
    match op {
        IrUnaryOp::Not => !v,
        IrUnaryOp::LogNot => flag_of(v == 0),
        IrUnaryOp::Neg => 0i64.wrapping_sub(v),
    }
}

/// What the free parts of an expression stand for: signals, memories, and the operators
/// whose result depends on declared widths.
pub ghost struct Env {
    pub ident: spec_fn(Seq<char>) -> i64,
    pub mem: spec_fn(Seq<char>, i64) -> i64,
    pub signed: spec_fn(i64) -> i64,
    pub concat: spec_fn(Seq<i64>) -> i64,
    pub part: spec_fn(i64, i64, i64) -> i64,
    pub undefined: spec_fn(IrBinOp, i64) -> i64,
}

/// Value of `l op r` in `env`; a division by zero is what the environment says it is.
pub open spec fn apply_bin(op: IrBinOp, l: i64, r: i64, env: Env) -> i64 {
    match binop_value(op, l, r) {
        Some(v) => v,
        None => (env.undefined)(op, l),
    }
}

/// Value of an expression in an environment.
pub open spec fn eval(e: ExprM, env: Env) -> i64
    decreases e,
{
    match e {
        ExprM::Const(v) => v,
        ExprM::Ident(n) => (env.ident)(n),
        ExprM::Binary { op, left, right } => apply_bin(op, eval(*left, env), eval(*right, env), env),
        ExprM::Unary { op, operand } => unop_value(op, eval(*operand, env)),
        ExprM::Signed(x) => (env.signed)(eval(*x, env)),
        ExprM::Ternary { cond, then_expr, else_expr } => if eval(*cond, env) != 0 {
            eval(*then_expr, env)
        } else {
            eval(*else_expr, env)
        },
        ExprM::Concat(es) => (env.concat)(eval_all(es, env)),
        ExprM::PartSelect { value, msb, lsb } => (env.part)(
            eval(*value, env),
            eval(*msb, env),
            eval(*lsb, env),
        ),
        ExprM::MemRead { stem, index } => (env.mem)(stem, eval(*index, env)),
    }
}

/// Values of a list of expressions.
pub open spec fn eval_all(es: Seq<ExprM>, env: Env) -> Seq<i64>
    decreases es,
{
    if es.len() == 0 {
        Seq::empty()
    } else {
        eval_all(es.drop_last(), env).push(eval(es.last(), env))
    }
}

/// The value of a constant expression.
pub open spec fn const_of(e: ExprM) -> Option<i64> {
    match e {
        ExprM::Const(v) => Some(v),
        _ => None,
    }
}

pub fn const_val(expr: &IrExpr) -> (r: Option<i64>)
    ensures
        r == const_of(expr@),
{
    if let IrExpr::Const(v) = expr {
        Some(*v)
    } else {
        None
    }
}

/// `expr` is the constant `v`.
pub fn is_const(expr: &IrExpr, v: i64) -> (r: bool)
    ensures
        r == (expr@ == ExprM::Const(v)),
{
    if let IrExpr::Const(x) = expr {
        *x == v
    } else {
        false
    }
}

} // verus!
