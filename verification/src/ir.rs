//! Intermediate representation of elaborated modules, with its mathematical models.
//!
//! Every executable type that holds strings or vectors has a ghost counterpart (`ExprM`,
//! `StmtM`, ...) made of `Seq<char>` and `Seq`, and a view into it. Contracts speak of the
//! views.
use crate::source_map::{FileId, SourceMap, Span};
use crate::{Diagnostic, Port};
use vstd::prelude::*;

verus! {

#[derive(Debug, Clone, Copy, PartialEq, Eq, Structural)]
pub enum IrBinOp {
    Add,
    Sub,
    Mul,
    Div,
    Mod,
    And,
    Or,
    Xor,
    Shl,
    Shr,
    Ashr,
    LogAnd,
    LogOr,
    Eq,
    Ne,
    Lt,
    Le,
    Gt,
    Ge,
}

#[derive(Debug, Clone, Copy, PartialEq, Eq, Structural)]
pub enum IrUnaryOp {
    Not,
    LogNot,
    Neg,
}

/// An expression tree over 64-bit values.
#[derive(Debug, PartialEq, Eq)]
pub enum IrExpr {
    Const(i64),
    Ident(String),
    Binary { op: IrBinOp, left: Box<IrExpr>, right: Box<IrExpr> },
    Unary { op: IrUnaryOp, operand: Box<IrExpr> },
    Signed(Box<IrExpr>),
    Ternary { cond: Box<IrExpr>, then_expr: Box<IrExpr>, else_expr: Box<IrExpr> },
    Concat(Vec<IrExpr>),
    PartSelect { value: Box<IrExpr>, msb: Box<IrExpr>, lsb: Box<IrExpr> },
    MemRead { stem: String, index: Box<IrExpr> },
}

/// Model of [`IrExpr`].
pub ghost enum ExprM {
    Const(i64),
    Ident(Seq<char>),
    Binary { op: IrBinOp, left: Box<ExprM>, right: Box<ExprM> },
    Unary { op: IrUnaryOp, operand: Box<ExprM> },
    Signed(Box<ExprM>),
    Ternary { cond: Box<ExprM>, then_expr: Box<ExprM>, else_expr: Box<ExprM> },
    Concat(Seq<ExprM>),
    PartSelect { value: Box<ExprM>, msb: Box<ExprM>, lsb: Box<ExprM> },
    MemRead { stem: Seq<char>, index: Box<ExprM> },
}

/// `left op right` as a model.
pub open spec fn bin_m(op: IrBinOp, left: ExprM, right: ExprM) -> ExprM {
    ExprM::Binary { op, left: Box::new(left), right: Box::new(right) }
}

/// `op operand` as a model.
pub open spec fn un_m(op: IrUnaryOp, operand: ExprM) -> ExprM {
    ExprM::Unary { op, operand: Box::new(operand) }
}

/// `cond ? t : e` as a model.
pub open spec fn ternary_m(cond: ExprM, t: ExprM, e: ExprM) -> ExprM {
    ExprM::Ternary { cond: Box::new(cond), then_expr: Box::new(t), else_expr: Box::new(e) }
}

impl IrExpr {
    pub open spec fn view(&self) -> ExprM
        decreases self,
    {
        match self {
            IrExpr::Const(v) => ExprM::Const(*v),
            IrExpr::Ident(s) => ExprM::Ident(s@),
            IrExpr::Binary { op, left, right } => bin_m(*op, left.view(), right.view()),
            IrExpr::Unary { op, operand } => un_m(*op, operand.view()),
            IrExpr::Signed(x) => ExprM::Signed(Box::new(x.view())),
            IrExpr::Ternary { cond, then_expr, else_expr } => ternary_m(
                cond.view(),
                then_expr.view(),
                else_expr.view(),
            ),
            IrExpr::Concat(es) => ExprM::Concat(exprs_view(es@)),
            IrExpr::PartSelect { value, msb, lsb } => ExprM::PartSelect {
                value: Box::new(value.view()),
                msb: Box::new(msb.view()),
                lsb: Box::new(lsb.view()),
            },
            IrExpr::MemRead { stem, index } => ExprM::MemRead {
                stem: stem@,
                index: Box::new(index.view()),
            },
        }
    }
}

/// Views of a list of expressions.
pub open spec fn exprs_view(es: Seq<IrExpr>) -> Seq<ExprM>
    decreases es,
{
    Seq::new(
        es.len(),
        |i: int|
            if 0 <= i < es.len() {
                es[i].view()
            } else {
                arbitrary()
            },
    )
}

impl Clone for IrExpr {
    fn clone(&self) -> (r: Self)
        ensures
            r@ == self@,
        decreases self,
    {
        match self {
            IrExpr::Const(v) => IrExpr::Const(*v),
            IrExpr::Ident(s) => IrExpr::Ident(s.clone()),
            IrExpr::Binary { op, left, right } => IrExpr::Binary {
                op: *op,
                left: Box::new((&**left).clone()),
                right: Box::new((&**right).clone()),
            },
            IrExpr::Unary { op, operand } => IrExpr::Unary {
                op: *op,
                operand: Box::new((&**operand).clone()),
            },
            IrExpr::Signed(x) => IrExpr::Signed(Box::new((&**x).clone())),
            IrExpr::Ternary { cond, then_expr, else_expr } => IrExpr::Ternary {
                cond: Box::new((&**cond).clone()),
                then_expr: Box::new((&**then_expr).clone()),
                else_expr: Box::new((&**else_expr).clone()),
            },
            IrExpr::Concat(es) => {
                let mut out: Vec<IrExpr> = Vec::new();
                let mut i: usize = 0;
                while i < es.len()
                    invariant
                        i <= es@.len(),
                        out@.len() == i,
                        forall|j: int| 0 <= j < i ==> (#[trigger] out@[j])@ == es@[j]@,
                        decreases_to!(self => es@),
                    decreases es@.len() - i,
                {
                    assert(decreases_to!(es@ => es@[i as int]));
                    out.push((&es[i]).clone());
                    i = i + 1;
                }
                assert(exprs_view(out@) =~= exprs_view(es@));
                IrExpr::Concat(out)
            },
            IrExpr::PartSelect { value, msb, lsb } => IrExpr::PartSelect {
                value: Box::new((&**value).clone()),
                msb: Box::new((&**msb).clone()),
                lsb: Box::new((&**lsb).clone()),
            },
            IrExpr::MemRead { stem, index } => IrExpr::MemRead {
                stem: stem.clone(),
                index: Box::new((&**index).clone()),
            },
        }
    }
}

/// Structural equality of expressions.
pub fn expr_eq(a: &IrExpr, b: &IrExpr) -> (r: bool)
    ensures
        r == (a@ == b@),
    decreases a,
{
    match (a, b) {
        (IrExpr::Const(x), IrExpr::Const(y)) => *x == *y,
        (IrExpr::Ident(x), IrExpr::Ident(y)) => *x == *y,
        (
            IrExpr::Binary { op: o1, left: l1, right: r1 },
            IrExpr::Binary { op: o2, left: l2, right: r2 },
        ) => *o1 == *o2 && expr_eq(l1, l2) && expr_eq(r1, r2),
        (
            IrExpr::Unary { op: o1, operand: x1 },
            IrExpr::Unary { op: o2, operand: x2 },
        ) => *o1 == *o2 && expr_eq(x1, x2),
        (IrExpr::Signed(x1), IrExpr::Signed(x2)) => expr_eq(x1, x2),
        (
            IrExpr::Ternary { cond: c1, then_expr: t1, else_expr: e1 },
            IrExpr::Ternary { cond: c2, then_expr: t2, else_expr: e2 },
        ) => expr_eq(c1, c2) && expr_eq(t1, t2) && expr_eq(e1, e2),
        (IrExpr::Concat(x), IrExpr::Concat(y)) => exprs_eq(x, y),
        (
            IrExpr::PartSelect { value: v1, msb: m1, lsb: l1 },
            IrExpr::PartSelect { value: v2, msb: m2, lsb: l2 },
        ) => expr_eq(v1, v2) && expr_eq(m1, m2) && expr_eq(l1, l2),
        (
            IrExpr::MemRead { stem: s1, index: i1 },
            IrExpr::MemRead { stem: s2, index: i2 },
        ) => *s1 == *s2 && expr_eq(i1, i2),
        _ => false,
    }
}

fn exprs_eq(a: &Vec<IrExpr>, b: &Vec<IrExpr>) -> (r: bool)
    ensures
        r == (exprs_view(a@) == exprs_view(b@)),
    decreases a,
{
    if a.len() != b.len() {
        assert(exprs_view(a@).len() != exprs_view(b@).len());
        return false;
    }
    let mut i: usize = 0;
    while i < a.len()
        invariant
            i <= a@.len() == b@.len(),
            forall|j: int| 0 <= j < i ==> a@[j]@ == b@[j]@,
        decreases a@.len() - i,
    {
        assert(decreases_to!(a => a@));
        assert(decreases_to!(a@ => a@[i as int]));
        if !expr_eq(&a[i], &b[i]) {
            assert(exprs_view(a@)[i as int] != exprs_view(b@)[i as int]);
            return false;
        }
        i = i + 1;
    }
    assert(exprs_view(a@) =~= exprs_view(b@));
    true
}

/// `assign lhs = rhs;`
#[derive(Debug, Clone)]
pub struct IrAssign {
    pub lhs: String,
    pub rhs: IrExpr,
    pub span: Span,
}

/// Model of [`IrAssign`].
pub ghost struct AssignM {
    pub lhs: Seq<char>,
    pub rhs: ExprM,
    pub span: Span,
}

impl IrAssign {
    pub open spec fn view(&self) -> AssignM {
        AssignM { lhs: self.lhs@, rhs: self.rhs@, span: self.span }
    }
}

/// Views of a list of assigns.
pub open spec fn assigns_view(s: Seq<IrAssign>) -> Seq<AssignM> {
    Seq::new(s.len(), |i: int| s[i]@)
}

#[derive(Debug, Clone)]
pub struct IrNet {
    pub name: String,
    pub width: usize,
}

/// Model of [`IrNet`] and of a port: a name and a width.
pub ghost struct NetM {
    pub name: Seq<char>,
    pub width: usize,
}

impl IrNet {
    pub open spec fn view(&self) -> NetM {
        NetM { name: self.name@, width: self.width }
    }
}

pub open spec fn nets_view(s: Seq<IrNet>) -> Seq<NetM> {
    Seq::new(s.len(), |i: int| s[i]@)
}

/// A memory `reg [elem_width-1:0] stem [lo:hi]`.
#[derive(Debug, Clone)]
pub struct IrMemArray {
    pub stem: String,
    pub lo: i64,
    pub hi: i64,
    pub elem_width: usize,
}

/// Model of [`IrMemArray`].
pub ghost struct MemArrayM {
    pub stem: Seq<char>,
    pub lo: i64,
    pub hi: i64,
    pub elem_width: usize,
}

impl IrMemArray {
    pub open spec fn view(&self) -> MemArrayM {
        MemArrayM { stem: self.stem@, lo: self.lo, hi: self.hi, elem_width: self.elem_width }
    }
}

pub open spec fn mem_arrays_view(s: Seq<IrMemArray>) -> Seq<MemArrayM> {
    Seq::new(s.len(), |i: int| s[i]@)
}

/// Port connection: `.port_name(expr)`, or positional where `port_name` is `None`.
#[derive(Debug, Clone)]
pub struct IrPortConn {
    pub port_name: Option<String>,
    pub expr: IrExpr,
    pub span: Span,
}

/// Model of [`IrPortConn`].
pub ghost struct PortConnM {
    pub port_name: Option<Seq<char>>,
    pub expr: ExprM,
    pub span: Span,
}

impl IrPortConn {
    pub open spec fn view(&self) -> PortConnM {
        PortConnM {
            port_name: match self.port_name {
                Some(n) => Some(n@),
                None => None,
            },
            expr: self.expr@,
            span: self.span,
        }
    }
}

pub open spec fn conns_view(s: Seq<IrPortConn>) -> Seq<PortConnM> {
    Seq::new(s.len(), |i: int| s[i]@)
}

#[derive(Debug, Clone)]
pub struct IrInstance {
    pub module_name: String,
    pub parameter_assignments: Vec<(String, IrExpr)>,
    pub instance_name: String,
    pub connections: Vec<IrPortConn>,
}

#[derive(Debug, Clone, Copy, PartialEq, Eq, Structural)]
pub enum IrEdgeKind {
    Posedge,
    Negedge,
    Level,
}

#[derive(Debug, Clone)]
pub struct IrSensEntry {
    pub edge: IrEdgeKind,
    pub signal: String,
}

#[derive(Debug, Clone)]
pub enum IrSensitivity {
    Star,
    Entries(Vec<IrSensEntry>),
}

/// Procedural statement.
#[derive(Debug)]
pub enum IrStmt {
    BlockingAssign { lhs: String, rhs: IrExpr },
    NonBlockingAssign { lhs: String, rhs: IrExpr },
    MemAssign { stem: String, index: IrExpr, rhs: IrExpr, nonblocking: bool },
    IfElse { cond: IrExpr, then_body: StmtBlock, else_body: StmtBlock },
    Case { expr: IrExpr, arms: Vec<IrCaseArm>, default: StmtBlock },
    For {
        init_var: String,
        init_val: IrExpr,
        cond: IrExpr,
        step_var: String,
        step_expr: IrExpr,
        body: StmtBlock,
    },
    Delay(crate::delay_rational::DelayRational),
    SystemTask { name: String, args: Vec<IrExpr> },
}

/// One arm of a `case`; `care_mask` is set for `casez` and `casex`.
#[derive(Debug)]
pub struct IrCaseArm {
    pub value: IrExpr,
    pub body: StmtBlock,
    pub care_mask: Option<i64>,
}

/// A statement together with its source location.
#[derive(Debug)]
pub struct SpannedStmt {
    pub stmt: IrStmt,
    pub span: Span,
}

/// A sequence of statements, each with its source location.
#[derive(Debug)]
pub struct StmtBlock {
    pub entries: Vec<SpannedStmt>,
}

/// Model of [`IrStmt`].
pub ghost enum StmtM {
    BlockingAssign { lhs: Seq<char>, rhs: ExprM },
    NonBlockingAssign { lhs: Seq<char>, rhs: ExprM },
    MemAssign { stem: Seq<char>, index: ExprM, rhs: ExprM, nonblocking: bool },
    IfElse { cond: ExprM, then_body: Seq<SpannedM>, else_body: Seq<SpannedM> },
    Case { expr: ExprM, arms: Seq<CaseArmM>, default: Seq<SpannedM> },
    For {
        init_var: Seq<char>,
        init_val: ExprM,
        cond: ExprM,
        step_var: Seq<char>,
        step_expr: ExprM,
        body: Seq<SpannedM>,
    },
    Delay(crate::delay_rational::DelayRational),
    SystemTask { name: Seq<char>, args: Seq<ExprM> },
}

/// Model of [`IrCaseArm`].
pub ghost struct CaseArmM {
    pub value: ExprM,
    pub body: Seq<SpannedM>,
    pub care_mask: Option<i64>,
}

/// Model of [`SpannedStmt`].
pub ghost struct SpannedM {
    pub stmt: StmtM,
    pub span: Span,
}

impl IrStmt {
    pub open spec fn view(&self) -> StmtM
        decreases self,
    {
        match self {
            IrStmt::BlockingAssign { lhs, rhs } => StmtM::BlockingAssign { lhs: lhs@, rhs: rhs@ },
            IrStmt::NonBlockingAssign { lhs, rhs } => StmtM::NonBlockingAssign {
                lhs: lhs@,
                rhs: rhs@,
            },
            IrStmt::MemAssign { stem, index, rhs, nonblocking } => StmtM::MemAssign {
                stem: stem@,
                index: index@,
                rhs: rhs@,
                nonblocking: *nonblocking,
            },
            IrStmt::IfElse { cond, then_body, else_body } => StmtM::IfElse {
                cond: cond@,
                then_body: then_body.view(),
                else_body: else_body.view(),
            },
            IrStmt::Case { expr, arms, default } => StmtM::Case {
                expr: expr@,
                arms: arms_view(arms@),
                default: default.view(),
            },
            IrStmt::For { init_var, init_val, cond, step_var, step_expr, body } => StmtM::For {
                init_var: init_var@,
                init_val: init_val@,
                cond: cond@,
                step_var: step_var@,
                step_expr: step_expr@,
                body: body.view(),
            },
            IrStmt::Delay(d) => StmtM::Delay(*d),
            IrStmt::SystemTask { name, args } => StmtM::SystemTask {
                name: name@,
                args: exprs_view(args@),
            },
        }
    }
}

impl IrCaseArm {
    pub open spec fn view(&self) -> CaseArmM
        decreases self,
    {
        CaseArmM { value: self.value@, body: self.body.view(), care_mask: self.care_mask }
    }
}

impl SpannedStmt {
    pub open spec fn view(&self) -> SpannedM
        decreases self,
    {
        SpannedM { stmt: self.stmt.view(), span: self.span }
    }
}

impl StmtBlock {
    pub open spec fn view(&self) -> Seq<SpannedM>
        decreases self,
    {
        entries_view(self.entries@)
    }
}

pub open spec fn entries_view(s: Seq<SpannedStmt>) -> Seq<SpannedM>
    decreases s,
{
    Seq::new(
        s.len(),
        |i: int|
            if 0 <= i < s.len() {
                s[i].view()
            } else {
                arbitrary()
            },
    )
}

pub open spec fn arms_view(s: Seq<IrCaseArm>) -> Seq<CaseArmM>
    decreases s,
{
    Seq::new(
        s.len(),
        |i: int|
            if 0 <= i < s.len() {
                s[i].view()
            } else {
                arbitrary()
            },
    )
}

/// A list of expressions, copied.
pub fn clone_exprs(es: &Vec<IrExpr>) -> (r: Vec<IrExpr>)
    ensures
        exprs_view(r@) == exprs_view(es@),
{
    let mut out: Vec<IrExpr> = Vec::new();
    let mut i: usize = 0;
    while i < es.len()
        invariant
            i <= es@.len(),
            out@.len() == i,
            forall|j: int| 0 <= j < i ==> (#[trigger] out@[j])@ == es@[j]@,
        decreases es@.len() - i,
    {
        out.push(es[i].clone());
        i = i + 1;
    }
    assert(exprs_view(out@) =~= exprs_view(es@));
    out
}

impl Clone for IrStmt {
    fn clone(&self) -> (r: Self)
        ensures
            r@ == self@,
        decreases self,
    {
        match self {
            IrStmt::BlockingAssign { lhs, rhs } => IrStmt::BlockingAssign {
                lhs: lhs.clone(),
                rhs: rhs.clone(),
            },
            IrStmt::NonBlockingAssign { lhs, rhs } => IrStmt::NonBlockingAssign {
                lhs: lhs.clone(),
                rhs: rhs.clone(),
            },
            IrStmt::MemAssign { stem, index, rhs, nonblocking } => IrStmt::MemAssign {
                stem: stem.clone(),
                index: index.clone(),
                rhs: rhs.clone(),
                nonblocking: *nonblocking,
            },
            IrStmt::IfElse { cond, then_body, else_body } => IrStmt::IfElse {
                cond: cond.clone(),
                then_body: then_body.clone(),
                else_body: else_body.clone(),
            },
            IrStmt::Case { expr, arms, default } => {
                let mut out: Vec<IrCaseArm> = Vec::new();
                let mut i: usize = 0;
                while i < arms.len()
                    invariant
                        i <= arms@.len(),
                        out@.len() == i,
                        forall|j: int| 0 <= j < i ==> (#[trigger] out@[j])@ == arms@[j]@,
                        decreases_to!(self => arms@),
                    decreases arms@.len() - i,
                {
                    assert(decreases_to!(arms@ => arms@[i as int]));
                    let arm = &arms[i];
                    out.push(
                        IrCaseArm {
                            value: arm.value.clone(),
                            body: arm.body.clone(),
                            care_mask: arm.care_mask,
                        },
                    );
                    i = i + 1;
                }
                assert(arms_view(out@) =~= arms_view(arms@));
                IrStmt::Case { expr: expr.clone(), arms: out, default: default.clone() }
            },
            IrStmt::For { init_var, init_val, cond, step_var, step_expr, body } => IrStmt::For {
                init_var: init_var.clone(),
                init_val: init_val.clone(),
                cond: cond.clone(),
                step_var: step_var.clone(),
                step_expr: step_expr.clone(),
                body: body.clone(),
            },
            IrStmt::Delay(d) => IrStmt::Delay(*d),
            IrStmt::SystemTask { name, args } => IrStmt::SystemTask {
                name: name.clone(),
                args: clone_exprs(args),
            },
        }
    }
}

impl Clone for StmtBlock {
    fn clone(&self) -> (r: Self)
        ensures
            r@ == self@,
        decreases self,
    {
        let mut out: Vec<SpannedStmt> = Vec::new();
        let mut i: usize = 0;
        while i < self.entries.len()
            invariant
                i <= self.entries@.len(),
                out@.len() == i,
                forall|j: int| 0 <= j < i ==> (#[trigger] out@[j])@ == self.entries@[j]@,
            decreases self.entries@.len() - i,
        {
            assert(decreases_to!(self => self.entries@));
            assert(decreases_to!(self.entries@ => self.entries@[i as int]));
            let entry = &self.entries[i];
            out.push(SpannedStmt { stmt: entry.stmt.clone(), span: entry.span });
            i = i + 1;
        }
        assert(entries_view(out@) =~= entries_view(self.entries@));
        StmtBlock { entries: out }
    }
}

impl StmtBlock {
    pub fn new() -> (r: Self)
        ensures
            r@ == Seq::<SpannedM>::empty(),
    {
        let r = StmtBlock { entries: Vec::new() };
        assert(r@ =~= Seq::<SpannedM>::empty());
        r
    }

    /// A block of statements without source locations.
    pub fn from_stmts(stmts: Vec<IrStmt>) -> (r: Self)
        ensures
            r@.len() == stmts@.len(),
            forall|i: int|
                0 <= i < r@.len() ==> #[trigger] r@[i] == (SpannedM {
                    stmt: stmts@[i]@,
                    span: Span::spec_dummy(),
                }),
    {
        let mut out: Vec<SpannedStmt> = Vec::new();
        let mut i: usize = 0;
        while i < stmts.len()
            invariant
                i <= stmts@.len(),
                out@.len() == i,
                forall|j: int|
                    0 <= j < i ==> (#[trigger] out@[j])@ == (SpannedM {
                        stmt: stmts@[j]@,
                        span: Span::spec_dummy(),
                    }),
            decreases stmts@.len() - i,
        {
            out.push(SpannedStmt { stmt: stmts[i].clone(), span: Span::dummy() });
            i = i + 1;
        }
        StmtBlock { entries: out }
    }

    pub fn push(&mut self, stmt: IrStmt, span: Span)
        ensures
            final(self)@ == old(self)@.push(SpannedM { stmt: stmt@, span }),
    {
        self.entries.push(SpannedStmt { stmt, span });
        assert(self@ =~= old(self)@.push(SpannedM { stmt: stmt@, span }));
    }

    pub fn len(&self) -> (r: usize)
        ensures
            r == self@.len(),
    {
        self.entries.len()
    }

    pub fn stmt(&self, i: usize) -> (r: &IrStmt)
        requires
            i < self@.len(),
        ensures
            r@ == self@[i as int].stmt,
    {
        &self.entries[i].stmt
    }

    pub fn span_of(&self, i: usize) -> (r: Span)
        requires
            i < self@.len(),
        ensures
            r == self@[i as int].span,
    {
        self.entries[i].span
    }
}

#[derive(Debug)]
pub struct IrAlways {
    pub sensitivity: IrSensitivity,
    pub stmts: StmtBlock,
}

#[derive(Debug)]
pub struct IrInitial {
    pub stmts: StmtBlock,
}

/// One elaborated module.
#[derive(Debug)]
pub struct IrModule {
    pub name: String,
    pub path: String,
    pub ports: Vec<Port>,
    pub nets: Vec<IrNet>,
    pub assigns: Vec<IrAssign>,
    pub instances: Vec<IrInstance>,
    pub always_blocks: Vec<IrAlways>,
    pub initial_blocks: Vec<IrInitial>,
    pub mem_arrays: Vec<IrMemArray>,
    pub resolved_parameters: Vec<(String, i64)>,
    pub file_id: FileId,
}

#[derive(Debug)]
pub struct IrProject {
    pub modules: Vec<IrModule>,
    pub diagnostics: Vec<Diagnostic>,
    pub source_map: SourceMap,
}

} // verus!
