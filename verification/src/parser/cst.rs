//! Concrete syntax of a source file, with its mathematical models.
//!
//! The models (`SynExpr`, `SynStmt`, ...) hold `Seq<char>` and `Seq` where the executable
//! types hold strings and vectors.
use crate::delay_rational::DelayRational;
use crate::Port;
use vstd::prelude::*;

verus! {

#[derive(Debug, Copy, Clone, PartialEq, Eq, Structural)]
pub enum BinaryOp {
    Add,
    Sub,
    Mul,
    Div,
    Mod,
    And,
    Or,
    Xor,
    Shl,
    Shr,
    Ashr,
    LogAnd,
    LogOr,
    Eq,
    Ne,
    Lt,
    Le,
    Gt,
    Ge,
}

#[derive(Debug, Copy, Clone, PartialEq, Eq, Structural)]
pub enum UnaryOp {
    Not,
    LogNot,
    Neg,
    Pos,
}

/// Expression tree.
#[derive(Debug, PartialEq)]
pub enum Expr {
    Ident(String),
    Number(String),
    Binary { op: BinaryOp, left: Box<Expr>, right: Box<Expr> },
    Unary { op: UnaryOp, operand: Box<Expr> },
    Ternary { cond: Box<Expr>, then_expr: Box<Expr>, else_expr: Box<Expr> },
    Concat(Vec<Expr>),
    /// Index or part-select: `base[msb]` or `base[msb:lsb]`.
    Index { base: Box<Expr>, msb: Box<Expr>, lsb: Option<Box<Expr>> },
    /// `$clog2(expr)`.
    Clog2(Box<Expr>),
    /// `$signed(expr)`.
    Signed(Box<Expr>),
}

/// Model of [`Expr`].
pub ghost enum SynExpr {
    Ident(Seq<char>),
    Number(Seq<char>),
    Binary { op: BinaryOp, left: Box<SynExpr>, right: Box<SynExpr> },
    Unary { op: UnaryOp, operand: Box<SynExpr> },
    Ternary { cond: Box<SynExpr>, then_expr: Box<SynExpr>, else_expr: Box<SynExpr> },
    Concat(Seq<SynExpr>),
    Index { base: Box<SynExpr>, msb: Box<SynExpr>, lsb: Option<Box<SynExpr>> },
    Clog2(Box<SynExpr>),
    Signed(Box<SynExpr>),
}

impl Expr {
    pub open spec fn view(&self) -> SynExpr
        decreases self,
    {
        match self {
            Expr::Ident(s) => SynExpr::Ident(s@),
            Expr::Number(s) => SynExpr::Number(s@),
            Expr::Binary { op, left, right } => SynExpr::Binary {
                op: *op,
                left: Box::new(left.view()),
                right: Box::new(right.view()),
            },
            Expr::Unary { op, operand } => SynExpr::Unary {
                op: *op,
                operand: Box::new(operand.view()),
            },
            Expr::Ternary { cond, then_expr, else_expr } => SynExpr::Ternary {
                cond: Box::new(cond.view()),
                then_expr: Box::new(then_expr.view()),
                else_expr: Box::new(else_expr.view()),
            },
            Expr::Concat(es) => SynExpr::Concat(exprs_view(es@)),
            Expr::Index { base, msb, lsb } => SynExpr::Index {
                base: Box::new(base.view()),
                msb: Box::new(msb.view()),
                lsb: match lsb {
                    Some(x) => Some(Box::new(x.view())),
                    None => None,
                },
            },
            Expr::Clog2(x) => SynExpr::Clog2(Box::new(x.view())),
            Expr::Signed(x) => SynExpr::Signed(Box::new(x.view())),
        }
    }
}

pub open spec fn exprs_view(es: Seq<Expr>) -> Seq<SynExpr>
    decreases es,
{
    Seq::new(
        es.len(),
        |i: int|
            if 0 <= i < es.len() {
                es[i].view()
            } else {
                arbitrary()
            },
    )
}

impl Clone for Expr {
    fn clone(&self) -> (r: Self)
        ensures
            r@ == self@,
        decreases self,
    {
        match self {
            Expr::Ident(s) => Expr::Ident(s.clone()),
            Expr::Number(s) => Expr::Number(s.clone()),
            Expr::Binary { op, left, right } => Expr::Binary {
                op: *op,
                left: Box::new((&**left).clone()),
                right: Box::new((&**right).clone()),
            },
            Expr::Unary { op, operand } => Expr::Unary {
                op: *op,
                operand: Box::new((&**operand).clone()),
            },
            Expr::Ternary { cond, then_expr, else_expr } => Expr::Ternary {
                cond: Box::new((&**cond).clone()),
                then_expr: Box::new((&**then_expr).clone()),
                else_expr: Box::new((&**else_expr).clone()),
            },
            Expr::Concat(es) => {
                let mut out: Vec<Expr> = Vec::new();
                let mut i: usize = 0;
                while i < es.len()
                    invariant
                        i <= es@.len(),
                        out@.len() == i,
                        forall|j: int| 0 <= j < i ==> (#[trigger] out@[j])@ == es@[j]@,
                        decreases_to!(self => es@),
                    decreases es@.len() - i,
                {
                    assert(decreases_to!(es@ => es@[i as int]));
                    out.push((&es[i]).clone());
                    i = i + 1;
                }
                assert(exprs_view(out@) =~= exprs_view(es@));
                Expr::Concat(out)
            },
            Expr::Index { base, msb, lsb } => Expr::Index {
                base: Box::new((&**base).clone()),
                msb: Box::new((&**msb).clone()),
                lsb: match lsb {
                    Some(x) => Some(Box::new((&**x).clone())),
                    None => None,
                },
            },
            Expr::Clog2(x) => Expr::Clog2(Box::new((&**x).clone())),
            Expr::Signed(x) => Expr::Signed(Box::new((&**x).clone())),
        }
    }
}

/// A list of expressions, copied.
pub fn clone_exprs(es: &Vec<Expr>) -> (r: Vec<Expr>)
    ensures
        exprs_view(r@) == exprs_view(es@),
{
    let mut out: Vec<Expr> = Vec::new();
    let mut i: usize = 0;
    while i < es.len()
        invariant
            i <= es@.len(),
            out@.len() == i,
            forall|j: int| 0 <= j < i ==> (#[trigger] out@[j])@ == es@[j]@,
        decreases es@.len() - i,
    {
        out.push(es[i].clone());
        i = i + 1;
    }
    assert(exprs_view(out@) =~= exprs_view(es@));
    out
}

/// Views of a list of `name = expr` pairs.
pub open spec fn pairs_view(s: Seq<(String, Expr)>) -> Seq<(Seq<char>, SynExpr)> {
    Seq::new(s.len(), |i: int| (s[i].0@, s[i].1@))
}

pub fn clone_pairs(v: &Vec<(String, Expr)>) -> (r: Vec<(String, Expr)>)
    ensures
        pairs_view(r@) == pairs_view(v@),
{
    let mut out: Vec<(String, Expr)> = Vec::new();
    let mut i: usize = 0;
    while i < v.len()
        invariant
            i <= v@.len(),
            out@.len() == i,
            forall|j: int|
                0 <= j < i ==> (#[trigger] out@[j]).0@ == v@[j].0@ && out@[j].1@ == v@[j].1@,
        decreases v@.len() - i,
    {
        out.push((v[i].0.clone(), v[i].1.clone()));
        i = i + 1;
    }
    assert(pairs_view(out@) =~= pairs_view(v@));
    out
}

/// Left-hand side of an assignment. The components of a concatenation are stored with the
/// most significant one first.
#[derive(Debug)]
pub enum AssignTarget {
    Whole(String),
    BitSelect { reg: String, index: Expr },
    PartSelect { reg: String, msb: Expr, lsb: Expr },
    Concat(Vec<AssignTarget>),
}

/// Model of [`AssignTarget`].
pub ghost enum SynTarget {
    Whole(Seq<char>),
    BitSelect { reg: Seq<char>, index: SynExpr },
    PartSelect { reg: Seq<char>, msb: SynExpr, lsb: SynExpr },
    Concat(Seq<SynTarget>),
}

impl AssignTarget {
    pub open spec fn view(&self) -> SynTarget
        decreases self,
    {
        match self {
            AssignTarget::Whole(s) => SynTarget::Whole(s@),
            AssignTarget::BitSelect { reg, index } => SynTarget::BitSelect {
                reg: reg@,
                index: index@,
            },
            AssignTarget::PartSelect { reg, msb, lsb } => SynTarget::PartSelect {
                reg: reg@,
                msb: msb@,
                lsb: lsb@,
            },
            AssignTarget::Concat(ts) => SynTarget::Concat(targets_view(ts@)),
        }
    }
}

pub open spec fn targets_view(ts: Seq<AssignTarget>) -> Seq<SynTarget>
    decreases ts,
{
    Seq::new(
        ts.len(),
        |i: int|
            if 0 <= i < ts.len() {
                ts[i].view()
            } else {
                arbitrary()
            },
    )
}

impl Clone for AssignTarget {
    fn clone(&self) -> (r: Self)
        ensures
            r@ == self@,
        decreases self,
    {
        match self {
            AssignTarget::Whole(s) => AssignTarget::Whole(s.clone()),
            AssignTarget::BitSelect { reg, index } => AssignTarget::BitSelect {
                reg: reg.clone(),
                index: index.clone(),
            },
            AssignTarget::PartSelect { reg, msb, lsb } => AssignTarget::PartSelect {
                reg: reg.clone(),
                msb: msb.clone(),
                lsb: lsb.clone(),
            },
            AssignTarget::Concat(ts) => {
                let mut out: Vec<AssignTarget> = Vec::new();
                let mut i: usize = 0;
                while i < ts.len()
                    invariant
                        i <= ts@.len(),
                        out@.len() == i,
                        forall|j: int| 0 <= j < i ==> (#[trigger] out@[j])@ == ts@[j]@,
                        decreases_to!(self => ts@),
                    decreases ts@.len() - i,
                {
                    assert(decreases_to!(ts@ => ts@[i as int]));
                    out.push((&ts[i]).clone());
                    i = i + 1;
                }
                assert(targets_view(out@) =~= targets_view(ts@));
                AssignTarget::Concat(out)
            },
        }
    }
}

/// `case` (plain) or `casez`/`casex` (with wildcards).
#[derive(Debug, Clone, Copy, PartialEq, Eq, Structural)]
pub enum CaseKind {
    Plain,
    Z,
    X,
}

/// Procedural statement inside an `always` or `initial` block.
#[derive(Debug)]
pub enum CstStmt {
    BlockingAssign { target: AssignTarget, rhs: Expr },
    NonBlockingAssign { target: AssignTarget, rhs: Expr },
    IfElse { cond: Expr, then_body: CstBlock, else_body: CstBlock },
    Case { kind: CaseKind, expr: Expr, arms: Vec<CaseArm>, default: CstBlock },
    For {
        init_var: String,
        init_val: Expr,
        cond: Expr,
        step_var: String,
        step_expr: Expr,
        body: CstBlock,
    },
    Delay(DelayRational),
    SystemTask { name: String, args: Vec<Expr> },
}

#[derive(Debug)]
pub struct CaseArm {
    pub value: Expr,
    pub body: CstBlock,
}

/// A list of statements with the half-open byte range of each.
#[derive(Debug)]
pub struct CstBlock {
    stmts: Vec<CstStmt>,
    ranges: Vec<(u32, u32)>,
}

/// Model of [`CstStmt`].
pub ghost enum SynStmt {
    BlockingAssign { target: SynTarget, rhs: SynExpr },
    NonBlockingAssign { target: SynTarget, rhs: SynExpr },
    IfElse { cond: SynExpr, then_body: SynBlock, else_body: SynBlock },
    Case { kind: CaseKind, expr: SynExpr, arms: Seq<SynArm>, default: SynBlock },
    For {
        init_var: Seq<char>,
        init_val: SynExpr,
        cond: SynExpr,
        step_var: Seq<char>,
        step_expr: SynExpr,
        body: SynBlock,
    },
    Delay(DelayRational),
    SystemTask { name: Seq<char>, args: Seq<SynExpr> },
}

/// Model of [`CaseArm`].
pub ghost struct SynArm {
    pub value: SynExpr,
    pub body: SynBlock,
}

/// Model of [`CstBlock`].
pub ghost struct SynBlock {
    pub stmts: Seq<SynStmt>,
    pub ranges: Seq<(u32, u32)>,
}

impl CstStmt {
    pub open spec fn view(&self) -> SynStmt
        decreases self,
    {
        match self {
            CstStmt::BlockingAssign { target, rhs } => SynStmt::BlockingAssign {
                target: target@,
                rhs: rhs@,
            },
            CstStmt::NonBlockingAssign { target, rhs } => SynStmt::NonBlockingAssign {
                target: target@,
                rhs: rhs@,
            },
            CstStmt::IfElse { cond, then_body, else_body } => SynStmt::IfElse {
                cond: cond@,
                then_body: then_body.view(),
                else_body: else_body.view(),
            },
            CstStmt::Case { kind, expr, arms, default } => SynStmt::Case {
                kind: *kind,
                expr: expr@,
                arms: arms_view(arms@),
                default: default.view(),
            },
            CstStmt::For { init_var, init_val, cond, step_var, step_expr, body } => SynStmt::For {
                init_var: init_var@,
                init_val: init_val@,
                cond: cond@,
                step_var: step_var@,
                step_expr: step_expr@,
                body: body.view(),
            },
            CstStmt::Delay(d) => SynStmt::Delay(*d),
            CstStmt::SystemTask { name, args } => SynStmt::SystemTask {
                name: name@,
                args: exprs_view(args@),
            },
        }
    }
}

impl CaseArm {
    pub open spec fn view(&self) -> SynArm
        decreases self,
    {
        SynArm { value: self.value@, body: self.body.view() }
    }
}

impl CstBlock {
    /// Every statement has its range.
    #[verifier::type_invariant]
    spec fn ranges_are_parallel(self) -> bool {
        self.stmts@.len() == self.ranges@.len()
    }

    pub closed spec fn view(&self) -> SynBlock
        decreases self,
    {
        SynBlock { stmts: stmts_view(self.stmts@), ranges: self.ranges@ }
    }
}

pub open spec fn stmts_view(s: Seq<CstStmt>) -> Seq<SynStmt>
    decreases s,
{
    Seq::new(
        s.len(),
        |i: int|
            if 0 <= i < s.len() {
                s[i].view()
            } else {
                arbitrary()
            },
    )
}

pub open spec fn arms_view(s: Seq<CaseArm>) -> Seq<SynArm>
    decreases s,
{
    Seq::new(
        s.len(),
        |i: int|
            if 0 <= i < s.len() {
                s[i].view()
            } else {
                arbitrary()
            },
    )
}

pub open spec fn empty_block() -> SynBlock {
    SynBlock { stmts: Seq::empty(), ranges: Seq::empty() }
}

impl SynBlock {
    pub open spec fn push(self, stmt: SynStmt, range: (u32, u32)) -> SynBlock {
        SynBlock { stmts: self.stmts.push(stmt), ranges: self.ranges.push(range) }
    }

    /// Every statement has a range.
    pub open spec fn ranged(self) -> bool {
        self.stmts.len() == self.ranges.len()
    }
}

impl Clone for CstStmt {
    fn clone(&self) -> (r: Self)
        ensures
            r@ == self@,
        decreases self,
    {
        match self {
            CstStmt::BlockingAssign { target, rhs } => CstStmt::BlockingAssign {
                target: target.clone(),
                rhs: rhs.clone(),
            },
            CstStmt::NonBlockingAssign { target, rhs } => CstStmt::NonBlockingAssign {
                target: target.clone(),
                rhs: rhs.clone(),
            },
            CstStmt::IfElse { cond, then_body, else_body } => CstStmt::IfElse {
                cond: cond.clone(),
                then_body: then_body.clone(),
                else_body: else_body.clone(),
            },
            CstStmt::Case { kind, expr, arms, default } => {
                let mut out: Vec<CaseArm> = Vec::new();
                let mut i: usize = 0;
                while i < arms.len()
                    invariant
                        i <= arms@.len(),
                        out@.len() == i,
                        forall|j: int| 0 <= j < i ==> (#[trigger] out@[j])@ == arms@[j]@,
                        decreases_to!(self => arms@),
                    decreases arms@.len() - i,
                {
                    assert(decreases_to!(arms@ => arms@[i as int]));
                    let arm = &arms[i];
                    out.push(CaseArm { value: arm.value.clone(), body: arm.body.clone() });
                    i = i + 1;
                }
                assert(arms_view(out@) =~= arms_view(arms@));
                CstStmt::Case {
                    kind: *kind,
                    expr: expr.clone(),
                    arms: out,
                    default: default.clone(),
                }
            },
            CstStmt::For { init_var, init_val, cond, step_var, step_expr, body } => CstStmt::For {
                init_var: init_var.clone(),
                init_val: init_val.clone(),
                cond: cond.clone(),
                step_var: step_var.clone(),
                step_expr: step_expr.clone(),
                body: body.clone(),
            },
            CstStmt::Delay(d) => CstStmt::Delay(*d),
            CstStmt::SystemTask { name, args } => CstStmt::SystemTask {
                name: name.clone(),
                args: clone_exprs(args),
            },
        }
    }
}

/// A list of statements, copied.
pub(crate) fn clone_stmts(v: &Vec<CstStmt>) -> (r: Vec<CstStmt>)
    ensures
        stmts_view(r@) == stmts_view(v@),
{
    let mut out: Vec<CstStmt> = Vec::new();
    let mut i: usize = 0;
    while i < v.len()
        invariant
            i <= v@.len(),
            out@.len() == i,
            forall|j: int| 0 <= j < i ==> (#[trigger] out@[j])@ == v@[j]@,
        decreases v@.len() - i,
    {
        out.push(v[i].clone());
        i = i + 1;
    }
    assert(stmts_view(out@) =~= stmts_view(v@));
    out
}

impl Clone for CstBlock {
    fn clone(&self) -> (r: Self)
        ensures
            r@ == self@,
        decreases self,
    {
        proof {
            use_type_invariant(self);
        }
        let mut out: Vec<CstStmt> = Vec::new();
        let mut i: usize = 0;
        while i < self.stmts.len()
            invariant
                i <= self.stmts@.len(),
                out@.len() == i,
                forall|j: int| 0 <= j < i ==> (#[trigger] out@[j])@ == self.stmts@[j]@,
            decreases self.stmts@.len() - i,
        {
            assert(decreases_to!(self => self.stmts@));
            assert(decreases_to!(self.stmts@ => self.stmts@[i as int]));
            out.push((&self.stmts[i]).clone());
            i = i + 1;
        }
        assert(stmts_view(out@) =~= stmts_view(self.stmts@));
        CstBlock { stmts: out, ranges: clone_ranges(&self.ranges) }
    }
}

fn clone_ranges(v: &Vec<(u32, u32)>) -> (r: Vec<(u32, u32)>)
    ensures
        r@ == v@,
{
    let mut out: Vec<(u32, u32)> = Vec::new();
    let mut i: usize = 0;
    while i < v.len()
        invariant
            i <= v@.len(),
            out@ == v@.take(i as int),
        decreases v@.len() - i,
    {
        out.push(v[i]);
        i = i + 1;
    }
    assert(v@.take(i as int) == v@);
    out
}

impl CstBlock {
    pub fn new() -> (r: Self)
        ensures
            r@ == empty_block(),
    {
        let r = CstBlock { stmts: Vec::new(), ranges: Vec::new() };
        assert(r@.stmts =~= Seq::empty());
        r
    }

    pub fn push(&mut self, stmt: CstStmt, range: (u32, u32))
        ensures
            final(self)@ == old(self)@.push(stmt@, range),
            final(self)@.ranged(),
    {
        let ghost before = self@;
        let mut block = CstBlock::new();
        std::mem::swap(self, &mut block);
        proof {
            use_type_invariant(&block);
        }
        let CstBlock { mut stmts, mut ranges } = block;
        stmts.push(stmt);
        ranges.push(range);
        *self = CstBlock { stmts, ranges };
        assert(self@.stmts =~= before.stmts.push(stmt@));
    }

    pub fn stmts(&self) -> (r: &[CstStmt])
        ensures
            stmts_view(r@) == self@.stmts,
            self@.ranged(),
            decreases_to!(self => r@),
    {
        proof {
            use_type_invariant(self);
        }
        self.stmts.as_slice()
    }

    pub fn ranges(&self) -> (r: &[(u32, u32)])
        ensures
            r@ == self@.ranges,
            self@.ranged(),
    {
        proof {
            use_type_invariant(self);
        }
        self.ranges.as_slice()
    }

    pub fn range_of(&self, idx: usize) -> (r: Option<(u32, u32)>)
        ensures
            r == if idx < self@.stmts.len() {
                Some(self@.ranges[idx as int])
            } else {
                None
            },
    {
        proof {
            use_type_invariant(self);
        }
        if idx < self.ranges.len() {
            Some(self.ranges[idx])
        } else {
            None
        }
    }

    pub fn len(&self) -> (r: usize)
        ensures
            r == self@.stmts.len(),
    {
        self.stmts.len()
    }

    pub fn is_empty(&self) -> (r: bool)
        ensures
            r == (self@.stmts.len() == 0),
    {
        self.stmts.len() == 0
    }

    /// The statements, in order.
    pub fn iter(&self) -> (r: Vec<&CstStmt>)
        ensures
            r@.len() == self@.stmts.len(),
            forall|i: int| 0 <= i < r@.len() ==> (#[trigger] r@[i])@ == self@.stmts[i],
    {
        let mut out: Vec<&CstStmt> = Vec::new();
        let mut i: usize = 0;
        while i < self.stmts.len()
            invariant
                i <= self.stmts@.len(),
                out@.len() == i,
                forall|j: int| 0 <= j < i ==> (#[trigger] out@[j])@ == self@.stmts[j],
            decreases self.stmts@.len() - i,
        {
            out.push(&self.stmts[i]);
            i = i + 1;
        }
        out
    }

    /// The statements with their ranges, in order.
    pub fn iter_with_ranges(&self) -> (r: Vec<(&CstStmt, (u32, u32))>)
        ensures
            r@.len() == self@.stmts.len(),
            forall|i: int|
                0 <= i < r@.len() ==> (#[trigger] r@[i]).0@ == self@.stmts[i] && r@[i].1
                    == self@.ranges[i],
    {
        proof {
            use_type_invariant(self);
        }
        let mut out: Vec<(&CstStmt, (u32, u32))> = Vec::new();
        let mut i: usize = 0;
        while i < self.stmts.len()
            invariant
                i <= self.stmts@.len(),
                self.stmts@.len() == self.ranges@.len(),
                out@.len() == i,
                forall|j: int|
                    0 <= j < i ==> (#[trigger] out@[j]).0@ == self@.stmts[j] && out@[j].1
                        == self@.ranges[j],
            decreases self.stmts@.len() - i,
        {
            out.push((&self.stmts[i], self.ranges[i]));
            i = i + 1;
        }
        out
    }

    /// A block of `stmts`, with the ranges of `like`.
    pub(crate) fn with_ranges_of(stmts: Vec<CstStmt>, like: &CstBlock) -> (r: CstBlock)
        requires
            stmts@.len() == like@.stmts.len(),
        ensures
            r@ == (SynBlock { stmts: stmts_view(stmts@), ranges: like@.ranges }),
    {
        proof {
            use_type_invariant(like);
        }
        CstBlock { stmts, ranges: clone_ranges(&like.ranges) }
    }

    /// A block of statements with their ranges.
    pub fn from_iter(pairs: Vec<(CstStmt, (u32, u32))>) -> (r: Self)
        ensures
            r@.ranged(),
            r@.stmts.len() == pairs@.len(),
            forall|i: int|
                0 <= i < pairs@.len() ==> (#[trigger] pairs@[i]).0@ == r@.stmts[i] && pairs@[i].1
                    == r@.ranges[i],
    {
        let ghost all = pairs@;
        let mut b = CstBlock::new();
        for pair in it: pairs
            invariant
                it.seq() == all,
                b@.ranged(),
                b@.stmts.len() == it.index(),
                forall|i: int|
                    0 <= i < it.index() ==> (#[trigger] all[i]).0@ == b@.stmts[i] && all[i].1
                        == b@.ranges[i],
        {
            let (stmt, range) = pair;
            b.push(stmt, range);
        }
        b
    }

    pub fn into_parts(self) -> (r: (Vec<CstStmt>, Vec<(u32, u32)>))
        ensures
            stmts_view(r.0@) == self@.stmts,
            r.1@ == self@.ranges,
            r.0@.len() == r.1@.len(),
    {
        proof {
            use_type_invariant(&self);
        }
        (self.stmts, self.ranges)
    }
}

impl Default for CstBlock {
    fn default() -> (r: Self)
        ensures
            r@ == empty_block(),
    {
        CstBlock::new()
    }
}

#[derive(Debug, Clone, Copy, PartialEq, Eq, Structural)]
pub enum EdgeKind {
    Posedge,
    Negedge,
    Level,
}

#[derive(Debug, Clone)]
pub struct SensEdge {
    pub edge: EdgeKind,
    pub signal: String,
}

/// Sensitivity list of an `always` block.
#[derive(Debug, Clone)]
pub enum Sensitivity {
    Star,
    EdgeList(Vec<SensEdge>),
}

/// Model of [`Sensitivity`].
pub ghost enum SynSens {
    Star,
    EdgeList(Seq<(EdgeKind, Seq<char>)>),
}

pub open spec fn edges_view(s: Seq<SensEdge>) -> Seq<(EdgeKind, Seq<char>)> {
    Seq::new(s.len(), |i: int| (s[i].edge, s[i].signal@))
}

impl Sensitivity {
    pub open spec fn view(&self) -> SynSens {
        match self {
            Sensitivity::Star => SynSens::Star,
            Sensitivity::EdgeList(v) => SynSens::EdgeList(edges_view(v@)),
        }
    }
}

#[derive(Debug, Copy, Clone, PartialEq, Eq, Structural)]
pub enum NetKind {
    Wire,
    Reg,
}

/// Port connection: `.port_name(expr)`, or positional where `port_name` is `None`.
#[derive(Debug)]
pub struct PortConnection {
    pub port_name: Option<String>,
    pub expr: Expr,
    /// Byte range of the connection: `.port(expr)` with both parentheses, or just the
    /// expression.
    pub range: (u32, u32),
}

/// Model of [`PortConnection`].
pub ghost struct SynConn {
    pub port_name: Option<Seq<char>>,
    pub expr: SynExpr,
    pub range: (u32, u32),
}

impl PortConnection {
    pub open spec fn view(&self) -> SynConn {
        SynConn {
            port_name: match self.port_name {
                Some(n) => Some(n@),
                None => None,
            },
            expr: self.expr@,
            range: self.range,
        }
    }
}

impl Clone for PortConnection {
    fn clone(&self) -> (r: Self)
        ensures
            r@ == self@,
    {
        let port_name = match &self.port_name {
            Some(n) => Some(n.clone()),
            None => None,
        };
        PortConnection { port_name, expr: self.expr.clone(), range: self.range }
    }
}

pub open spec fn conns_view(s: Seq<PortConnection>) -> Seq<SynConn> {
    Seq::new(s.len(), |i: int| s[i]@)
}

pub fn clone_conns(v: &Vec<PortConnection>) -> (r: Vec<PortConnection>)
    ensures
        conns_view(r@) == conns_view(v@),
{
    let mut out: Vec<PortConnection> = Vec::new();
    let mut i: usize = 0;
    while i < v.len()
        invariant
            i <= v@.len(),
            out@.len() == i,
            forall|j: int| 0 <= j < i ==> (#[trigger] out@[j])@ == v@[j]@,
        decreases v@.len() - i,
    {
        out.push(v[i].clone());
        i = i + 1;
    }
    assert(conns_view(out@) =~= conns_view(v@));
    out
}

/// An unpacked dimension `stem[hi:lo]`.
pub open spec fn stems_view(s: Seq<(String, Expr, Expr)>) -> Seq<(Seq<char>, SynExpr, SynExpr)> {
    Seq::new(s.len(), |i: int| (s[i].0@, s[i].1@, s[i].2@))
}

/// Views of a list of names.
pub open spec fn names_view(s: Seq<String>) -> Seq<Seq<char>> {
    Seq::new(s.len(), |i: int| s[i]@)
}

/// An assign inside a generate loop: target, expression, byte range.
pub open spec fn gen_assigns_view(s: Seq<(AssignTarget, Expr, (u32, u32))>) -> Seq<
    (SynTarget, SynExpr, (u32, u32)),
> {
    Seq::new(s.len(), |i: int| (s[i].0@, s[i].1@, s[i].2))
}

/// Module body item.
#[derive(Debug)]
pub enum CstModuleItem {
    NetDecl {
        kind: NetKind,
        /// Packed `[msb:lsb]` when present; otherwise `width` counts.
        packed_dim: Option<(Expr, Expr)>,
        width: usize,
        names: Vec<String>,
        /// Unpacked `[hi:lo]` per stem.
        unpacked_stems: Vec<(String, Expr, Expr)>,
        /// `input` / `output` / `inout` of a directional declaration in the module body.
        decl_dir: Option<String>,
    },
    Assign {
        target: AssignTarget,
        expr: Expr,
        /// Byte range of the `assign … ;` statement.
        range: (u32, u32),
    },
    Instance {
        module_name: String,
        parameter_assignments: Vec<(String, Expr)>,
        instance_name: String,
        connections: Vec<PortConnection>,
    },
    Always { sensitivity: Sensitivity, body: CstBlock },
    Initial { body: CstBlock },
    LocalParam { assignments: Vec<(String, Expr)> },
    /// `generate for` around exactly one instance.
    GenerateFor {
        loop_var: String,
        upper_expr: Expr,
        module_name: String,
        parameter_assignments: Vec<(String, Expr)>,
        instance_stem: String,
        connections: Vec<PortConnection>,
    },
    /// `generate for` around continuous assigns only.
    GenerateForAssigns {
        loop_var: String,
        upper_expr: Expr,
        assigns: Vec<(AssignTarget, Expr, (u32, u32))>,
    },
    /// Any other `generate for`.
    GenerateForBody { loop_var: String, upper_expr: Expr, body: Vec<CstModuleItem> },
    GenerateIf { cond: Expr, then_body: Vec<CstModuleItem>, else_body: Vec<CstModuleItem> },
    GenerateCase {
        scrutinee: Expr,
        arms: Vec<(Expr, Vec<CstModuleItem>)>,
        default: Vec<CstModuleItem>,
    },
}

/// Model of [`CstModuleItem`].
pub ghost enum SynItem {
    NetDecl {
        kind: NetKind,
        packed_dim: Option<(SynExpr, SynExpr)>,
        width: usize,
        names: Seq<Seq<char>>,
        unpacked_stems: Seq<(Seq<char>, SynExpr, SynExpr)>,
        decl_dir: Option<Seq<char>>,
    },
    Assign { target: SynTarget, expr: SynExpr, range: (u32, u32) },
    Instance {
        module_name: Seq<char>,
        parameter_assignments: Seq<(Seq<char>, SynExpr)>,
        instance_name: Seq<char>,
        connections: Seq<SynConn>,
    },
    Always { sensitivity: SynSens, body: SynBlock },
    Initial { body: SynBlock },
    LocalParam { assignments: Seq<(Seq<char>, SynExpr)> },
    GenerateFor {
        loop_var: Seq<char>,
        upper_expr: SynExpr,
        module_name: Seq<char>,
        parameter_assignments: Seq<(Seq<char>, SynExpr)>,
        instance_stem: Seq<char>,
        connections: Seq<SynConn>,
    },
    GenerateForAssigns {
        loop_var: Seq<char>,
        upper_expr: SynExpr,
        assigns: Seq<(SynTarget, SynExpr, (u32, u32))>,
    },
    GenerateForBody { loop_var: Seq<char>, upper_expr: SynExpr, body: Seq<SynItem> },
    GenerateIf { cond: SynExpr, then_body: Seq<SynItem>, else_body: Seq<SynItem> },
    GenerateCase {
        scrutinee: SynExpr,
        arms: Seq<(SynExpr, Seq<SynItem>)>,
        default: Seq<SynItem>,
    },
}

impl CstModuleItem {
    pub open spec fn view(&self) -> SynItem
        decreases self,
    {
        match self {
            CstModuleItem::NetDecl {
                kind,
                packed_dim,
                width,
                names,
                unpacked_stems,
                decl_dir,
            } => SynItem::NetDecl {
                kind: *kind,
                packed_dim: match packed_dim {
                    Some(d) => Some((d.0@, d.1@)),
                    None => None,
                },
                width: *width,
                names: names_view(names@),
                unpacked_stems: stems_view(unpacked_stems@),
                decl_dir: match decl_dir {
                    Some(d) => Some(d@),
                    None => None,
                },
            },
            CstModuleItem::Assign { target, expr, range } => SynItem::Assign {
                target: target@,
                expr: expr@,
                range: *range,
            },
            CstModuleItem::Instance {
                module_name,
                parameter_assignments,
                instance_name,
                connections,
            } => SynItem::Instance {
                module_name: module_name@,
                parameter_assignments: pairs_view(parameter_assignments@),
                instance_name: instance_name@,
                connections: conns_view(connections@),
            },
            CstModuleItem::Always { sensitivity, body } => SynItem::Always {
                sensitivity: sensitivity@,
                body: body@,
            },
            CstModuleItem::Initial { body } => SynItem::Initial { body: body@ },
            CstModuleItem::LocalParam { assignments } => SynItem::LocalParam {
                assignments: pairs_view(assignments@),
            },
            CstModuleItem::GenerateFor {
                loop_var,
                upper_expr,
                module_name,
                parameter_assignments,
                instance_stem,
                connections,
            } => SynItem::GenerateFor {
                loop_var: loop_var@,
                upper_expr: upper_expr@,
                module_name: module_name@,
                parameter_assignments: pairs_view(parameter_assignments@),
                instance_stem: instance_stem@,
                connections: conns_view(connections@),
            },
            CstModuleItem::GenerateForAssigns { loop_var, upper_expr, assigns } =>
                SynItem::GenerateForAssigns {
                loop_var: loop_var@,
                upper_expr: upper_expr@,
                assigns: gen_assigns_view(assigns@),
            },
            CstModuleItem::GenerateForBody { loop_var, upper_expr, body } =>
                SynItem::GenerateForBody {
                loop_var: loop_var@,
                upper_expr: upper_expr@,
                body: items_view(body@),
            },
            CstModuleItem::GenerateIf { cond, then_body, else_body } => SynItem::GenerateIf {
                cond: cond@,
                then_body: items_view(then_body@),
                else_body: items_view(else_body@),
            },
            CstModuleItem::GenerateCase { scrutinee, arms, default } => SynItem::GenerateCase {
                scrutinee: scrutinee@,
                arms: gen_arms_view(arms@),
                default: items_view(default@),
            },
        }
    }
}

pub open spec fn items_view(s: Seq<CstModuleItem>) -> Seq<SynItem>
    decreases s,
{
    Seq::new(
        s.len(),
        |i: int|
            if 0 <= i < s.len() {
                s[i].view()
            } else {
                arbitrary()
            },
    )
}

pub open spec fn gen_arms_view(s: Seq<(Expr, Vec<CstModuleItem>)>) -> Seq<(SynExpr, Seq<SynItem>)>
    decreases s,
{
    Seq::new(
        s.len(),
        |i: int|
            if 0 <= i < s.len() {
                (s[i].0@, items_view(s[i].1@))
            } else {
                arbitrary()
            },
    )
}

fn clone_stems(v: &Vec<(String, Expr, Expr)>) -> (r: Vec<(String, Expr, Expr)>)
    ensures
        stems_view(r@) == stems_view(v@),
{
    let mut out: Vec<(String, Expr, Expr)> = Vec::new();
    let mut i: usize = 0;
    while i < v.len()
        invariant
            i <= v@.len(),
            out@.len() == i,
            forall|j: int|
                0 <= j < i ==> ((#[trigger] out@[j]).0@, out@[j].1@, out@[j].2@) == (
                    v@[j].0@,
                    v@[j].1@,
                    v@[j].2@,
                ),
        decreases v@.len() - i,
    {
        out.push((v[i].0.clone(), v[i].1.clone(), v[i].2.clone()));
        i = i + 1;
    }
    assert(stems_view(out@) =~= stems_view(v@));
    out
}

pub(crate) fn clone_names(v: &Vec<String>) -> (r: Vec<String>)
    ensures
        names_view(r@) == names_view(v@),
{
    let mut out: Vec<String> = Vec::new();
    let mut i: usize = 0;
    while i < v.len()
        invariant
            i <= v@.len(),
            out@.len() == i,
            forall|j: int| 0 <= j < i ==> (#[trigger] out@[j])@ == v@[j]@,
        decreases v@.len() - i,
    {
        out.push(v[i].clone());
        i = i + 1;
    }
    assert(names_view(out@) =~= names_view(v@));
    out
}

fn clone_sensitivity(s: &Sensitivity) -> (r: Sensitivity)
    ensures
        r@ == s@,
{
    match s {
        Sensitivity::Star => Sensitivity::Star,
        Sensitivity::EdgeList(v) => {
            let mut out: Vec<SensEdge> = Vec::new();
            let mut i: usize = 0;
            while i < v.len()
                invariant
                    i <= v@.len(),
                    out@.len() == i,
                    forall|j: int|
                        0 <= j < i ==> (#[trigger] out@[j]).edge == v@[j].edge && out@[j].signal@
                            == v@[j].signal@,
                decreases v@.len() - i,
            {
                out.push(SensEdge { edge: v[i].edge, signal: v[i].signal.clone() });
                i = i + 1;
            }
            assert(edges_view(out@) =~= edges_view(v@));
            Sensitivity::EdgeList(out)
        },
    }
}

/// A list of module items, copied.
pub fn clone_items(items: &Vec<CstModuleItem>) -> (r: Vec<CstModuleItem>)
    ensures
        items_view(r@) == items_view(items@),
    decreases items,
{
    let mut out: Vec<CstModuleItem> = Vec::new();
    let mut i: usize = 0;
    while i < items.len()
        invariant
            i <= items@.len(),
            out@.len() == i,
            forall|j: int| 0 <= j < i ==> (#[trigger] out@[j])@ == items@[j]@,
        decreases items@.len() - i,
    {
        assert(decreases_to!(items => items@));
        assert(decreases_to!(items@ => items@[i as int]));
        out.push((&items[i]).clone());
        i = i + 1;
    }
    assert(items_view(out@) =~= items_view(items@));
    out
}

impl Clone for CstModuleItem {
    fn clone(&self) -> (r: Self)
        ensures
            r@ == self@,
        decreases self,
    {
        match self {
            CstModuleItem::NetDecl {
                kind,
                packed_dim,
                width,
                names,
                unpacked_stems,
                decl_dir,
            } => CstModuleItem::NetDecl {
                kind: *kind,
                packed_dim: match packed_dim {
                    Some(d) => Some((d.0.clone(), d.1.clone())),
                    None => None,
                },
                width: *width,
                names: clone_names(names),
                unpacked_stems: clone_stems(unpacked_stems),
                decl_dir: match decl_dir {
                    Some(d) => Some(d.clone()),
                    None => None,
                },
            },
            CstModuleItem::Assign { target, expr, range } => CstModuleItem::Assign {
                target: target.clone(),
                expr: expr.clone(),
                range: *range,
            },
            CstModuleItem::Instance {
                module_name,
                parameter_assignments,
                instance_name,
                connections,
            } => CstModuleItem::Instance {
                module_name: module_name.clone(),
                parameter_assignments: clone_pairs(parameter_assignments),
                instance_name: instance_name.clone(),
                connections: clone_conns(connections),
            },
            CstModuleItem::Always { sensitivity, body } => CstModuleItem::Always {
                sensitivity: clone_sensitivity(sensitivity),
                body: body.clone(),
            },
            CstModuleItem::Initial { body } => CstModuleItem::Initial { body: body.clone() },
            CstModuleItem::LocalParam { assignments } => CstModuleItem::LocalParam {
                assignments: clone_pairs(assignments),
            },
            CstModuleItem::GenerateFor {
                loop_var,
                upper_expr,
                module_name,
                parameter_assignments,
                instance_stem,
                connections,
            } => CstModuleItem::GenerateFor {
                loop_var: loop_var.clone(),
                upper_expr: upper_expr.clone(),
                module_name: module_name.clone(),
                parameter_assignments: clone_pairs(parameter_assignments),
                instance_stem: instance_stem.clone(),
                connections: clone_conns(connections),
            },
            CstModuleItem::GenerateForAssigns { loop_var, upper_expr, assigns } => {
                let mut out: Vec<(AssignTarget, Expr, (u32, u32))> = Vec::new();
                let mut i: usize = 0;
                while i < assigns.len()
                    invariant
                        i <= assigns@.len(),
                        out@.len() == i,
                        forall|j: int|
                            0 <= j < i ==> ((#[trigger] out@[j]).0@, out@[j].1@, out@[j].2) == (
                                assigns@[j].0@,
                                assigns@[j].1@,
                                assigns@[j].2,
                            ),
                    decreases assigns@.len() - i,
                {
                    out.push((assigns[i].0.clone(), assigns[i].1.clone(), assigns[i].2));
                    i = i + 1;
                }
                assert(gen_assigns_view(out@) =~= gen_assigns_view(assigns@));
                CstModuleItem::GenerateForAssigns {
                    loop_var: loop_var.clone(),
                    upper_expr: upper_expr.clone(),
                    assigns: out,
                }
            },
            CstModuleItem::GenerateForBody { loop_var, upper_expr, body } =>
                CstModuleItem::GenerateForBody {
                loop_var: loop_var.clone(),
                upper_expr: upper_expr.clone(),
                body: clone_items(body),
            },
            CstModuleItem::GenerateIf { cond, then_body, else_body } => CstModuleItem::GenerateIf {
                cond: cond.clone(),
                then_body: clone_items(then_body),
                else_body: clone_items(else_body),
            },
            CstModuleItem::GenerateCase { scrutinee, arms, default } => {
                let mut out: Vec<(Expr, Vec<CstModuleItem>)> = Vec::new();
                let mut i: usize = 0;
                while i < arms.len()
                    invariant
                        i <= arms@.len(),
                        out@.len() == i,
                        forall|j: int|
                            0 <= j < i ==> (#[trigger] out@[j]).0@ == arms@[j].0@ && items_view(
                                out@[j].1@,
                            ) == items_view(arms@[j].1@),
                        decreases_to!(self => arms@),
                    decreases arms@.len() - i,
                {
                    assert(decreases_to!(arms@ => arms@[i as int]));
                    let arm = &arms[i];
                    out.push((arm.0.clone(), clone_items(&arm.1)));
                    i = i + 1;
                }
                assert(gen_arms_view(out@) =~= gen_arms_view(arms@));
                CstModuleItem::GenerateCase {
                    scrutinee: scrutinee.clone(),
                    arms: out,
                    default: clone_items(default),
                }
            },
        }
    }
}

/// A `module` declaration.
#[derive(Debug)]
pub struct CstModule {
    pub name: String,
    pub ports: Vec<Port>,
    /// `#(parameter W = 16, ...)` of the module header.
    pub module_parameters: Vec<(String, Expr)>,
    pub path: String,
    pub items: Vec<CstModuleItem>,
}

/// Model of a port.
pub ghost struct SynPort {
    pub direction: Option<Seq<char>>,
    pub name: Seq<char>,
    pub width: usize,
}

pub open spec fn port_view(p: Port) -> SynPort {
    SynPort {
        direction: match p.direction {
            Some(d) => Some(d@),
            None => None,
        },
        name: p.name@,
        width: p.width,
    }
}

pub open spec fn ports_view(s: Seq<Port>) -> Seq<SynPort> {
    Seq::new(s.len(), |i: int| port_view(s[i]))
}

/// Model of [`CstModule`].
pub ghost struct SynModule {
    pub name: Seq<char>,
    pub ports: Seq<SynPort>,
    pub module_parameters: Seq<(Seq<char>, SynExpr)>,
    pub path: Seq<char>,
    pub items: Seq<SynItem>,
}

impl CstModule {
    pub open spec fn view(&self) -> SynModule {
        SynModule {
            name: self.name@,
            ports: ports_view(self.ports@),
            module_parameters: pairs_view(self.module_parameters@),
            path: self.path@,
            items: items_view(self.items@),
        }
    }
}

pub open spec fn modules_view(s: Seq<CstModule>) -> Seq<SynModule> {
    Seq::new(s.len(), |i: int| s[i]@)
}

/// A parsed source file.
#[derive(Debug)]
pub struct CstFile {
    pub modules: Vec<CstModule>,
}

} // verus!
