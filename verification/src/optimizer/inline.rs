//! Inlining of small module instances.
//!
//! An instance of a small module without instances, `always` or `initial` blocks is
//! replaced by the nets and assigns of that module. Names of the child get the instance
//! name as prefix, except for connected ports, which become the connected expressions.
use super::eval::{eval_binop, eval_unaryop};
use super::subst::Bindings;
use crate::ir::{
    AssignM, ExprM, IrAssign, IrBinOp, IrExpr, IrInstance, IrMemArray, IrModule, IrNet, IrPortConn,
    IrProject, MemArrayM, NetM,
};
use crate::text::{concat_str, str_eq};
use crate::Port;
use vstd::prelude::*;

verus! {

/// Modules with more assigns than this are not inlined.
pub const MAX_INLINE_ASSIGNS: usize = 16;

// ---------------------------------------------------------------------------------------
// Constant indices, widths, and writes of a single bit
// ---------------------------------------------------------------------------------------
/// The value of an index expression made of constants.
pub open spec fn const_index(e: ExprM) -> Option<i64>
    decreases e,
{
    match e {
        ExprM::Const(v) => Some(v),
        ExprM::Binary { op, left, right } => match (const_index(*left), const_index(*right)) {
            (Some(l), Some(r)) => super::eval::binop_value(op, l, r),
            _ => None,
        },
        ExprM::Unary { op, operand } => match const_index(*operand) {
            Some(v) => Some(super::eval::unop_value(op, v)),
            None => None,
        },
        _ => None,
    }
}

pub fn ir_try_eval_const_index_expr(e: &IrExpr) -> (r: Option<i64>)
    ensures
        r == const_index(e@),
    decreases e,
{
    match e {
        IrExpr::Const(v) => Some(*v),
        IrExpr::Binary { op, left, right } => {
            match (ir_try_eval_const_index_expr(left), ir_try_eval_const_index_expr(right)) {
                (Some(l), Some(r)) => eval_binop(*op, l, r),
                _ => None,
            }
        },
        IrExpr::Unary { op, operand } => {
            match ir_try_eval_const_index_expr(operand) {
                Some(v) => Some(eval_unaryop(*op, v)),
                None => None,
            }
        },
        _ => None,
    }
}

/// Width of the first net of that name.
pub open spec fn net_width(nets: Seq<IrNet>, name: Seq<char>) -> Option<usize>
    decreases nets.len(),
{
    if nets.len() == 0 {
        None
    } else {
        match net_width(nets.drop_last(), name) {
            Some(w) => Some(w),
            None => if nets.last().name@ == name {
                Some(nets.last().width)
            } else {
                None
            },
        }
    }
}

/// Width of the first port of that name.
pub open spec fn port_width(ports: Seq<Port>, name: Seq<char>) -> Option<usize>
    decreases ports.len(),
{
    if ports.len() == 0 {
        None
    } else {
        match port_width(ports.drop_last(), name) {
            Some(w) => Some(w),
            None => if ports.last().name@ == name {
                Some(ports.last().width)
            } else {
                None
            },
        }
    }
}

/// Width of a name in a module: that of the net, else of the port, else one bit.
pub open spec fn width_in(m: IrModule, name: Seq<char>) -> usize {
    match net_width(m.nets@, name) {
        Some(w) => w,
        None => match port_width(m.ports@, name) {
            Some(w) => w,
            None => 1,
        },
    }
}

proof fn lemma_port_width_prefix(ports: Seq<Port>, k: int, name: Seq<char>)
    requires
        0 <= k <= ports.len(),
        port_width(ports.take(k), name) is Some,
    ensures
        port_width(ports, name) == port_width(ports.take(k), name),
    decreases ports.len() - k,
{
    if k < ports.len() {
        assert(ports.take(k + 1).drop_last() == ports.take(k));
        lemma_port_width_prefix(ports, k + 1, name);
    } else {
        assert(ports.take(k) == ports);
    }
}

proof fn lemma_net_width_prefix(nets: Seq<IrNet>, k: int, name: Seq<char>)
    requires
        0 <= k <= nets.len(),
        net_width(nets.take(k), name) is Some,
    ensures
        net_width(nets, name) == net_width(nets.take(k), name),
    decreases nets.len() - k,
{
    if k < nets.len() {
        assert(nets.take(k + 1).drop_last() == nets.take(k));
        lemma_net_width_prefix(nets, k + 1, name);
    } else {
        assert(nets.take(k) == nets);
    }
}

fn find_port_width(ports: &Vec<Port>, name: &str) -> (r: Option<usize>)
    ensures
        r == port_width(ports@, name@),
{
    let mut i: usize = 0;
    while i < ports.len()
        invariant
            i <= ports@.len(),
            port_width(ports@.take(i as int), name@) is None,
        decreases ports@.len() - i,
    {
        assert(ports@.take(i + 1).drop_last() == ports@.take(i as int));
        assert(ports@.take(i + 1).last() == ports@[i as int]);
        if str_eq(ports[i].name.as_str(), name) {
            proof {
                lemma_port_width_prefix(ports@, i + 1, name@);
            }
            return Some(ports[i].width);
        }
        i = i + 1;
    }
    assert(ports@.take(i as int) == ports@);
    None
}

fn find_net_width(nets: &Vec<IrNet>, name: &str) -> (r: Option<usize>)
    ensures
        r == net_width(nets@, name@),
{
    let mut i: usize = 0;
    while i < nets.len()
        invariant
            i <= nets@.len(),
            net_width(nets@.take(i as int), name@) is None,
        decreases nets@.len() - i,
    {
        assert(nets@.take(i + 1).drop_last() == nets@.take(i as int));
        assert(nets@.take(i + 1).last() == nets@[i as int]);
        if str_eq(nets[i].name.as_str(), name) {
            proof {
                lemma_net_width_prefix(nets@, i + 1, name@);
            }
            return Some(nets[i].width);
        }
        i = i + 1;
    }
    assert(nets@.take(i as int) == nets@);
    None
}

pub fn ir_net_width_in_module(m: &IrModule, name: &str) -> (w: usize)
    ensures
        w == width_in(*m, name@),
{
    match find_net_width(&m.nets, name) {
        Some(w) => w,
        None => match find_port_width(&m.ports, name) {
            Some(w) => w,
            None => 1,
        },
    }
}

/// All ones but for bit `k`.
pub open spec fn all_but_bit(k: i64) -> i64 {
    !(1i64 << ((k as u32) % 64))
}

/// `vec` with bit `k` replaced by the low bit of `rhs`.
pub open spec fn merged_bit(name: Seq<char>, k: i64, rhs: ExprM) -> ExprM {
    crate::ir::bin_m(
        IrBinOp::Or,
        crate::ir::bin_m(IrBinOp::And, ExprM::Ident(name), ExprM::Const(all_but_bit(k))),
        crate::ir::bin_m(
            IrBinOp::Shl,
            crate::ir::bin_m(IrBinOp::And, rhs, ExprM::Const(1)),
            ExprM::Const(k),
        ),
    )
}

fn bin(op: IrBinOp, left: IrExpr, right: IrExpr) -> (r: IrExpr)
    ensures
        r@ == crate::ir::bin_m(op, left@, right@),
{
    IrExpr::Binary { op, left: Box::new(left), right: Box::new(right) }
}

/// The read-modify-write that stores the low bit of `rhs` in bit `k` of a packed net.
pub fn ir_expr_merge_scalar_into_packed_vec(name: &String, k: i64, rhs: IrExpr) -> (r: IrExpr)
    ensures
        r@ == merged_bit(name@, k, rhs@),
{
    let mask: i64 = !1i64.wrapping_shl(k as u32);
    bin(
        IrBinOp::Or,
        bin(IrBinOp::And, IrExpr::Ident(name.clone()), IrExpr::Const(mask)),
        bin(IrBinOp::Shl, bin(IrBinOp::And, rhs, IrExpr::Const(1)), IrExpr::Const(k)),
    )
}

/// A merged bit has the value of the low bit of the new driver, and every other bit keeps
/// the value that it has in the packed net.
pub proof fn law_merged_bit_value(
    name: Seq<char>,
    k: i64,
    rhs: ExprM,
    env: super::eval::Env,
    b: u32,
)
    requires
        0 <= k < 64,
        b < 64,
    ensures
        (super::eval::eval(merged_bit(name, k, rhs), env) >> b) & 1 == if b == k {
            super::eval::eval(rhs, env) & 1
        } else {
            ((env.ident)(name) >> b) & 1
        },
{
    reveal_with_fuel(super::eval::eval, 4);
    let v = (env.ident)(name);
    let r = super::eval::eval(rhs, env);
    let s = k as u32;
    assert(s % 64 == s);
    assert((((v & !(1i64 << s)) | ((r & 1i64) << s)) >> b) & 1i64 == if b == s {
        r & 1i64
    } else {
        (v >> b) & 1i64
    }) by (bit_vector)
        requires
            s < 64,
            b < 64,
    ;
}

// ---------------------------------------------------------------------------------------
// One instance
// ---------------------------------------------------------------------------------------
/// A child expression seen from the parent: connected ports are replaced, all other names
/// get the prefix.
pub open spec fn lifted(e: ExprM, m: Map<Seq<char>, ExprM>, prefix: Seq<char>) -> ExprM
    decreases e,
{
    match e {
        ExprM::Const(_) => e,
        ExprM::Ident(n) => if m.contains_key(n) {
            m[n]
        } else {
            ExprM::Ident(prefix + n)
        },
        ExprM::Binary { op, left, right } => crate::ir::bin_m(
            op,
            lifted(*left, m, prefix),
            lifted(*right, m, prefix),
        ),
        ExprM::Unary { op, operand } => crate::ir::un_m(op, lifted(*operand, m, prefix)),
        ExprM::Signed(x) => ExprM::Signed(Box::new(lifted(*x, m, prefix))),
        ExprM::Ternary { cond, then_expr, else_expr } => crate::ir::ternary_m(
            lifted(*cond, m, prefix),
            lifted(*then_expr, m, prefix),
            lifted(*else_expr, m, prefix),
        ),
        ExprM::Concat(es) => ExprM::Concat(lifted_all(es, m, prefix)),
        ExprM::PartSelect { value, msb, lsb } => ExprM::PartSelect {
            value: Box::new(lifted(*value, m, prefix)),
            msb: Box::new(lifted(*msb, m, prefix)),
            lsb: Box::new(lifted(*lsb, m, prefix)),
        },
        ExprM::MemRead { stem, index } => ExprM::MemRead {
            stem: prefix + stem,
            index: Box::new(lifted(*index, m, prefix)),
        },
    }
}

pub open spec fn lifted_all(
    es: Seq<ExprM>,
    m: Map<Seq<char>, ExprM>,
    prefix: Seq<char>,
) -> Seq<ExprM>
    decreases es,
{
    Seq::new(
        es.len(),
        |i: int|
            if 0 <= i < es.len() {
                lifted(es[i], m, prefix)
            } else {
                arbitrary()
            },
    )
}

fn substitute_expr(expr: &IrExpr, subst: &Bindings, prefix: &str) -> (r: IrExpr)
    ensures
        r@ == lifted(expr@, subst@, prefix@),
    decreases expr,
{
    match expr {
        IrExpr::Ident(name) => {
            match subst.get(name.as_str()) {
                Some(replacement) => replacement.clone(),
                None => IrExpr::Ident(concat_str(prefix, name.as_str())),
            }
        },
        IrExpr::Const(v) => IrExpr::Const(*v),
        IrExpr::Binary { op, left, right } => IrExpr::Binary {
            op: *op,
            left: Box::new(substitute_expr(left, subst, prefix)),
            right: Box::new(substitute_expr(right, subst, prefix)),
        },
        IrExpr::Unary { op, operand } => IrExpr::Unary {
            op: *op,
            operand: Box::new(substitute_expr(operand, subst, prefix)),
        },
        IrExpr::Signed(inner) => IrExpr::Signed(Box::new(substitute_expr(inner, subst, prefix))),
        IrExpr::Ternary { cond, then_expr, else_expr } => IrExpr::Ternary {
            cond: Box::new(substitute_expr(cond, subst, prefix)),
            then_expr: Box::new(substitute_expr(then_expr, subst, prefix)),
            else_expr: Box::new(substitute_expr(else_expr, subst, prefix)),
        },
        IrExpr::Concat(exprs) => {
            let ghost model = crate::ir::exprs_view(exprs@);
            let mut out: Vec<IrExpr> = Vec::new();
            let mut i: usize = 0;
            while i < exprs.len()
                invariant
                    i <= exprs@.len(),
                    out@.len() == i,
                    model == crate::ir::exprs_view(exprs@),
                    forall|j: int|
                        0 <= j < i ==> (#[trigger] out@[j])@ == lifted_all(
                            model,
                            subst@,
                            prefix@,
                        )[j],
                    decreases_to!(expr => exprs@),
                decreases exprs@.len() - i,
            {
                assert(decreases_to!(exprs@ => exprs@[i as int]));
                assert(model[i as int] == exprs@[i as int]@);
                out.push(substitute_expr(&exprs[i], subst, prefix));
                i = i + 1;
            }
            assert(crate::ir::exprs_view(out@) =~= lifted_all(model, subst@, prefix@));
            IrExpr::Concat(out)
        },
        IrExpr::PartSelect { value, msb, lsb } => IrExpr::PartSelect {
            value: Box::new(substitute_expr(value, subst, prefix)),
            msb: Box::new(substitute_expr(msb, subst, prefix)),
            lsb: Box::new(substitute_expr(lsb, subst, prefix)),
        },
        IrExpr::MemRead { stem, index } => IrExpr::MemRead {
            stem: concat_str(prefix, stem.as_str()),
            index: Box::new(substitute_expr(index, subst, prefix)),
        },
    }
}

/// The named connections of an instance, in order.
pub open spec fn conn_entries(conns: Seq<IrPortConn>) -> Seq<(Seq<char>, ExprM)>
    decreases conns.len(),
{
    if conns.len() == 0 {
        Seq::empty()
    } else {
        let rest = conn_entries(conns.drop_last());
        match conns.last().port_name {
            Some(n) => rest.push((n@, conns.last().expr@)),
            None => rest,
        }
    }
}

/// From port names to the connected expressions.
pub open spec fn conn_map(inst: IrInstance) -> Map<Seq<char>, ExprM> {
    super::subst::map_of(conn_entries(inst.connections@))
}

fn connection_map(inst: &IrInstance) -> (r: Bindings)
    ensures
        r@ == conn_map(*inst),
{
    let mut map = Bindings::new();
    let mut i: usize = 0;
    let conns = &inst.connections;
    assert(super::subst::entries_of(map.entries@) =~= conn_entries(conns@.take(0)));
    while i < conns.len()
        invariant
            i <= conns@.len(),
            super::subst::entries_of(map.entries@) == conn_entries(conns@.take(i as int)),
        decreases conns@.len() - i,
    {
        assert(conns@.take(i + 1).drop_last() == conns@.take(i as int));
        assert(conns@.take(i + 1).last() == conns@[i as int]);
        if let Some(pn) = &conns[i].port_name {
            map.insert(pn.clone(), conns[i].expr.clone());
        }
        i = i + 1;
    }
    assert(conns@.take(i as int) == conns@);
    map
}

/// Number of bits between two indices.
pub open spec fn select_width(hi: i64, lo: i64) -> int {
    (if hi >= lo {
        hi - lo
    } else {
        lo - hi
    }) + 1
}

/// The parent net that an assign to a connected port drives as a whole: the connected net,
/// or the net of a part-select that spans both the net and the port.
pub open spec fn drive_lhs(
    mapped: ExprM,
    child_ports: Seq<Port>,
    port: Seq<char>,
    parent: IrModule,
) -> Option<Seq<char>> {
    match mapped {
        ExprM::Ident(name) => Some(name),
        ExprM::PartSelect { value, msb, lsb } => match (*value, const_index(*msb), const_index(*lsb)) {
            (ExprM::Ident(name), Some(hi), Some(lo)) => {
                let w_sel = select_width(hi, lo);
                let w_full = width_in(parent, name);
                let w_port = match port_width(child_ports, port) {
                    Some(w) => w,
                    None => 0,
                };
                if w_sel == w_full && w_sel == w_port {
                    Some(name)
                } else {
                    None
                }
            },
            _ => None,
        },
        _ => None,
    }
}

/// See [`drive_lhs`]. Comparing only with the port's width would take `S[i]` for a full
/// drive of a wider `S`.
fn inline_drive_lhs(
    mapped: &IrExpr,
    child_ports: &Vec<Port>,
    child_lhs_port: &str,
    parent: &IrModule,
) -> (r: Option<String>)
    ensures
        match r {
            Some(n) => drive_lhs(mapped@, child_ports@, child_lhs_port@, *parent) == Some(n@),
            None => drive_lhs(mapped@, child_ports@, child_lhs_port@, *parent) is None,
        },
{
    proof {
        reveal_with_fuel(IrExpr::view, 2);
    }
    match mapped {
        IrExpr::Ident(name) => Some(name.clone()),
        IrExpr::PartSelect { value, msb, lsb } => {
            let name = match &**value {
                IrExpr::Ident(name) => name,
                _ => {
                    return None;
                },
            };
            match (ir_try_eval_const_index_expr(msb), ir_try_eval_const_index_expr(lsb)) {
                (Some(hi), Some(lo)) => {
                    let distance: i128 = if hi >= lo {
                        hi as i128 - lo as i128
                    } else {
                        lo as i128 - hi as i128
                    };
                    let w_sel: i128 = distance + 1;
                    let w_port: usize = match find_port_width(child_ports, child_lhs_port) {
                        Some(w) => w,
                        None => 0,
                    };
                    let w_full: usize = ir_net_width_in_module(parent, name.as_str());
                    if w_sel == w_full as i128 && w_sel == w_port as i128 {
                        Some(name.clone())
                    } else {
                        None
                    }
                },
                _ => None,
            }
        },
        _ => None,
    }
}

/// The bit `k` of a wider parent net that a one-bit port is connected to.
pub open spec fn single_bit(
    mapped: ExprM,
    child_ports: Seq<Port>,
    port: Seq<char>,
    parent: IrModule,
) -> Option<(Seq<char>, i64)> {
    match mapped {
        ExprM::PartSelect { value, msb, lsb } => match (*value, const_index(*msb), const_index(*lsb)) {
            (ExprM::Ident(name), Some(hi), Some(lo)) => {
                let w_full = width_in(parent, name);
                let w_port = match port_width(child_ports, port) {
                    Some(w) => w,
                    None => 1,
                };
                if hi == lo && w_port == 1 && w_full > 1 && 0 <= hi < w_full {
                    Some((name, hi))
                } else {
                    None
                }
            },
            _ => None,
        },
        _ => None,
    }
}

fn connected_bit(
    mapped: &IrExpr,
    child_ports: &Vec<Port>,
    port: &str,
    parent: &IrModule,
) -> (r: Option<(String, i64)>)
    ensures
        match r {
            Some(b) => single_bit(mapped@, child_ports@, port@, *parent) == Some((b.0@, b.1)),
            None => single_bit(mapped@, child_ports@, port@, *parent) is None,
        },
{
    proof {
        reveal_with_fuel(IrExpr::view, 2);
    }
    if let IrExpr::PartSelect { value, msb, lsb } = mapped {
        if let IrExpr::Ident(vec_name) = &**value {
            if let (Some(k_hi), Some(k_lo)) = (
                ir_try_eval_const_index_expr(msb),
                ir_try_eval_const_index_expr(lsb),
            ) {
                let w_full: usize = ir_net_width_in_module(parent, vec_name.as_str());
                let w_port: usize = match find_port_width(child_ports, port) {
                    Some(w) => w,
                    None => 1,
                };
                if k_hi == k_lo && w_port == 1 && w_full > 1 && k_hi >= 0 && (k_hi as i128) < (
                w_full as i128) {
                    return Some((vec_name.clone(), k_hi));
                }
            }
        }
    }
    None
}

/// An assign of the child as an assign of the parent.
pub open spec fn lifted_assign(
    a: AssignM,
    m: Map<Seq<char>, ExprM>,
    prefix: Seq<char>,
    child_ports: Seq<Port>,
    parent: IrModule,
) -> AssignM {
    let rhs = lifted(a.rhs, m, prefix);
    if m.contains_key(a.lhs) {
        match single_bit(m[a.lhs], child_ports, a.lhs, parent) {
            Some((name, k)) => AssignM {
                lhs: name,
                rhs: merged_bit(name, k, rhs),
                span: a.span,
            },
            None => AssignM {
                lhs: match drive_lhs(m[a.lhs], child_ports, a.lhs, parent) {
                    Some(name) => name,
                    None => prefix + a.lhs,
                },
                rhs,
                span: a.span,
            },
        }
    } else {
        AssignM { lhs: prefix + a.lhs, rhs, span: a.span }
    }
}

fn lift_assign(
    a: &IrAssign,
    subst: &Bindings,
    prefix: &str,
    child_ports: &Vec<Port>,
    parent: &IrModule,
) -> (r: IrAssign)
    ensures
        r@ == lifted_assign(a@, subst@, prefix@, child_ports@, *parent),
{
    let rhs = substitute_expr(&a.rhs, subst, prefix);
    match subst.get(a.lhs.as_str()) {
        Some(mapped) => {
            match connected_bit(mapped, child_ports, a.lhs.as_str(), parent) {
                Some((name, k)) => {
                    let merged = ir_expr_merge_scalar_into_packed_vec(&name, k, rhs);
                    IrAssign { lhs: name, rhs: merged, span: a.span }
                },
                None => {
                    let lhs = match inline_drive_lhs(mapped, child_ports, a.lhs.as_str(), parent) {
                        Some(name) => name,
                        None => concat_str(prefix, a.lhs.as_str()),
                    };
                    IrAssign { lhs, rhs, span: a.span }
                },
            }
        },
        None => IrAssign { lhs: concat_str(prefix, a.lhs.as_str()), rhs, span: a.span },
    }
}

/// A module is inlined where it is small and has neither instances nor `always` nor
/// `initial` blocks.
pub open spec fn inlinable(m: IrModule) -> bool {
    m.assigns@.len() <= MAX_INLINE_ASSIGNS && m.instances@.len() == 0 && m.always_blocks@.len()
        == 0 && m.initial_blocks@.len() == 0
}

/// Position of the last module of that name.
pub open spec fn find_module(mods: Seq<IrModule>, name: Seq<char>) -> Option<int>
    decreases mods.len(),
{
    if mods.len() == 0 {
        None
    } else if mods.last().name@ == name {
        Some(mods.len() - 1)
    } else {
        find_module(mods.drop_last(), name)
    }
}

pub proof fn lemma_find_module(mods: Seq<IrModule>, name: Seq<char>)
    ensures
        find_module(mods, name) matches Some(i) ==> 0 <= i < mods.len() && mods[i].name@ == name,
    decreases mods.len(),
{
    if mods.len() > 0 && mods.last().name@ != name {
        lemma_find_module(mods.drop_last(), name);
    }
}

/// The module that an instance is replaced by, if any.
pub open spec fn inline_target(mods: Seq<IrModule>, inst: IrInstance) -> Option<int> {
    match find_module(mods, inst.module_name@) {
        Some(i) => if inlinable(mods[i]) {
            Some(i)
        } else {
            None
        },
        None => None,
    }
}

/// Prefix of the names of an inlined instance.
pub open spec fn instance_prefix(inst: IrInstance) -> Seq<char> {
    inst.instance_name@ + seq!['_', '_']
}

/// The nets that an inlined instance adds: those of the child that are not connected.
pub open spec fn lifted_nets(
    nets: Seq<IrNet>,
    m: Map<Seq<char>, ExprM>,
    prefix: Seq<char>,
) -> Seq<NetM>
    decreases nets.len(),
{
    if nets.len() == 0 {
        Seq::empty()
    } else {
        let rest = lifted_nets(nets.drop_last(), m, prefix);
        if m.contains_key(nets.last().name@) {
            rest
        } else {
            rest.push(NetM { name: prefix + nets.last().name@, width: nets.last().width })
        }
    }
}

/// What inlining adds to a parent module, and the instances that stay.
pub ghost struct InlinedM {
    pub nets: Seq<NetM>,
    pub assigns: Seq<AssignM>,
    pub mem_arrays: Seq<MemArrayM>,
    pub instances: Seq<IrInstance>,
    pub count: nat,
}

/// The additions of one inlined instance of `child`.
pub open spec fn instance_additions(
    child: IrModule,
    inst: IrInstance,
    parent: IrModule,
) -> InlinedM {
    let m = conn_map(inst);
    let prefix = instance_prefix(inst);
    InlinedM {
        nets: lifted_nets(child.nets@, m, prefix),
        assigns: Seq::new(
            child.assigns@.len(),
            |i: int| lifted_assign(child.assigns@[i]@, m, prefix, child.ports@, parent),
        ),
        mem_arrays: Seq::new(
            child.mem_arrays@.len(),
            |i: int|
                MemArrayM {
                    stem: prefix + child.mem_arrays@[i].stem@,
                    ..child.mem_arrays@[i]@
                },
        ),
        instances: Seq::empty(),
        count: 1,
    }
}

/// Inlining of a list of instances of `parent`, in order. Children are taken as they are
/// in `mods`, that is before any inlining.
pub open spec fn inline_instances(
    mods: Seq<IrModule>,
    parent: IrModule,
    insts: Seq<IrInstance>,
) -> InlinedM
    decreases insts.len(),
{
    if insts.len() == 0 {
        InlinedM {
            nets: Seq::empty(),
            assigns: Seq::empty(),
            mem_arrays: Seq::empty(),
            instances: Seq::empty(),
            count: 0,
        }
    } else {
        let prev = inline_instances(mods, parent, insts.drop_last());
        let inst = insts.last();
        match inline_target(mods, inst) {
            Some(i) => {
                let add = instance_additions(mods[i], inst, parent);
                InlinedM {
                    nets: prev.nets + add.nets,
                    assigns: prev.assigns + add.assigns,
                    mem_arrays: prev.mem_arrays + add.mem_arrays,
                    instances: prev.instances,
                    count: prev.count + 1,
                }
            },
            None => InlinedM { instances: prev.instances.push(inst), ..prev },
        }
    }
}

/// `out` is `parent` with its inlinable instances replaced.
pub open spec fn is_inlined(mods: Seq<IrModule>, parent: IrModule, out: IrModule) -> bool {
    let r = inline_instances(mods, parent, parent.instances@);
    &&& out == (IrModule {
        nets: out.nets,
        assigns: out.assigns,
        mem_arrays: out.mem_arrays,
        instances: out.instances,
        ..parent
    })
    &&& out.instances@ == r.instances
    &&& crate::ir::nets_view(out.nets@) == crate::ir::nets_view(parent.nets@) + r.nets
    &&& crate::ir::assigns_view(out.assigns@) == crate::ir::assigns_view(parent.assigns@)
        + r.assigns
    &&& crate::ir::mem_arrays_view(out.mem_arrays@) == crate::ir::mem_arrays_view(
        parent.mem_arrays@,
    ) + r.mem_arrays
}

/// What inlining adds to a module, and which of its instances stay.
struct Plan {
    nets: Vec<IrNet>,
    assigns: Vec<IrAssign>,
    mem_arrays: Vec<IrMemArray>,
    keep: Vec<bool>,
    count: usize,
}

/// The plan is the result of inlining the first `n` instances of `parent`.
spec fn planned(p: Plan, mods: Seq<IrModule>, parent: IrModule, n: int) -> bool {
    let r = inline_instances(mods, parent, parent.instances@.take(n));
    &&& crate::ir::nets_view(p.nets@) == r.nets
    &&& crate::ir::assigns_view(p.assigns@) == r.assigns
    &&& crate::ir::mem_arrays_view(p.mem_arrays@) == r.mem_arrays
    &&& p.keep@.len() == n
    &&& forall|i: int|
        0 <= i < n ==> #[trigger] p.keep@[i] == (inline_target(mods, parent.instances@[i]) is None)
    &&& p.count == super::rewrite::sat(r.count)
}

fn find_inline_target(mods: &Vec<IrModule>, inst: &IrInstance) -> (r: Option<usize>)
    ensures
        match r {
            Some(i) => i < mods@.len() && inline_target(mods@, *inst) == Some(i as int),
            None => inline_target(mods@, *inst) is None,
        },
{
    let mut n: usize = mods.len();
    assert(mods@.take(n as int) == mods@);
    while n > 0
        invariant
            n <= mods@.len(),
            find_module(mods@, inst.module_name@) == find_module(
                mods@.take(n as int),
                inst.module_name@,
            ),
        decreases n,
    {
        assert(mods@.take(n as int).last() == mods@[n - 1]);
        assert(mods@.take(n as int).drop_last() == mods@.take(n - 1));
        let m = &mods[n - 1];
        if m.name == inst.module_name {
            if m.assigns.len() <= 16 && m.instances.len() == 0 && m.always_blocks.len() == 0
                && m.initial_blocks.len() == 0 {
                return Some(n - 1);
            }
            return None;
        }
        n = n - 1;
    }
    None
}

fn prefix_of(inst: &IrInstance) -> (r: String)
    ensures
        r@ == instance_prefix(*inst),
{
    proof {
        reveal_strlit("__");
    }
    let r = concat_str(inst.instance_name.as_str(), "__");
    assert("__"@ =~= seq!['_', '_']);
    r
}

/// Appends the additions of one instance of `child` to a plan.
fn add_instance(plan: &mut Plan, child: &IrModule, inst: &IrInstance, parent: &IrModule)
    ensures
        final(plan).keep == old(plan).keep,
        final(plan).count == old(plan).count,
        crate::ir::nets_view(final(plan).nets@) == crate::ir::nets_view(old(plan).nets@)
            + instance_additions(*child, *inst, *parent).nets,
        crate::ir::assigns_view(final(plan).assigns@) == crate::ir::assigns_view(
            old(plan).assigns@,
        ) + instance_additions(*child, *inst, *parent).assigns,
        crate::ir::mem_arrays_view(final(plan).mem_arrays@) == crate::ir::mem_arrays_view(
            old(plan).mem_arrays@,
        ) + instance_additions(*child, *inst, *parent).mem_arrays,
{
    let ghost add = instance_additions(*child, *inst, *parent);
    let subst = connection_map(inst);
    let prefix = prefix_of(inst);
    let ghost nets0 = crate::ir::nets_view(plan.nets@);
    let mut i: usize = 0;
    assert(crate::ir::nets_view(plan.nets@) =~= nets0 + lifted_nets(
        child.nets@.take(0),
        subst@,
        prefix@,
    ));
    while i < child.nets.len()
        invariant
            i <= child.nets@.len(),
            plan.keep == old(plan).keep,
            plan.count == old(plan).count,
            plan.assigns == old(plan).assigns,
            plan.mem_arrays == old(plan).mem_arrays,
            crate::ir::nets_view(plan.nets@) == nets0 + lifted_nets(
                child.nets@.take(i as int),
                subst@,
                prefix@,
            ),
        decreases child.nets@.len() - i,
    {
        assert(child.nets@.take(i + 1).drop_last() == child.nets@.take(i as int));
        assert(child.nets@.take(i + 1).last() == child.nets@[i as int]);
        let net = &child.nets[i];
        if subst.get(net.name.as_str()).is_none() {
            let ghost cur = crate::ir::nets_view(plan.nets@);
            let lifted_net = IrNet {
                name: concat_str(prefix.as_str(), net.name.as_str()),
                width: net.width,
            };
            plan.nets.push(lifted_net);
            assert(crate::ir::nets_view(plan.nets@) =~= cur.push(lifted_net@));
        }
        assert(crate::ir::nets_view(plan.nets@) =~= nets0 + lifted_nets(
            child.nets@.take(i + 1),
            subst@,
            prefix@,
        ));
        i = i + 1;
    }
    assert(child.nets@.take(i as int) == child.nets@);
    let ghost assigns0 = crate::ir::assigns_view(plan.assigns@);
    let mut j: usize = 0;
    assert(crate::ir::assigns_view(plan.assigns@) =~= assigns0 + add.assigns.take(0));
    while j < child.assigns.len()
        invariant
            j <= child.assigns@.len(),
            plan.keep == old(plan).keep,
            plan.count == old(plan).count,
            crate::ir::nets_view(plan.nets@) == nets0 + add.nets,
            plan.mem_arrays == old(plan).mem_arrays,
            subst@ == conn_map(*inst),
            prefix@ == instance_prefix(*inst),
            add == instance_additions(*child, *inst, *parent),
            crate::ir::assigns_view(plan.assigns@) == assigns0 + add.assigns.take(j as int),
        decreases child.assigns@.len() - j,
    {
        let ghost cur = crate::ir::assigns_view(plan.assigns@);
        let a = lift_assign(&child.assigns[j], &subst, prefix.as_str(), &child.ports, parent);
        plan.assigns.push(a);
        assert(crate::ir::assigns_view(plan.assigns@) =~= cur.push(a@));
        assert(crate::ir::assigns_view(plan.assigns@) =~= assigns0 + add.assigns.take(j + 1));
        j = j + 1;
    }
    assert(add.assigns.take(j as int) == add.assigns);
    let ghost mems0 = crate::ir::mem_arrays_view(plan.mem_arrays@);
    let mut k: usize = 0;
    assert(crate::ir::mem_arrays_view(plan.mem_arrays@) =~= mems0 + add.mem_arrays.take(0));
    while k < child.mem_arrays.len()
        invariant
            k <= child.mem_arrays@.len(),
            plan.keep == old(plan).keep,
            plan.count == old(plan).count,
            crate::ir::nets_view(plan.nets@) == nets0 + add.nets,
            crate::ir::assigns_view(plan.assigns@) == assigns0 + add.assigns,
            prefix@ == instance_prefix(*inst),
            add == instance_additions(*child, *inst, *parent),
            crate::ir::mem_arrays_view(plan.mem_arrays@) == mems0 + add.mem_arrays.take(k as int),
        decreases child.mem_arrays@.len() - k,
    {
        let ghost cur = crate::ir::mem_arrays_view(plan.mem_arrays@);
        let ma = &child.mem_arrays[k];
        let lifted_mem = IrMemArray {
            stem: concat_str(prefix.as_str(), ma.stem.as_str()),
            lo: ma.lo,
            hi: ma.hi,
            elem_width: ma.elem_width,
        };
        plan.mem_arrays.push(lifted_mem);
        assert(crate::ir::mem_arrays_view(plan.mem_arrays@) =~= cur.push(lifted_mem@));
        assert(crate::ir::mem_arrays_view(plan.mem_arrays@) =~= mems0 + add.mem_arrays.take(k + 1));
        k = k + 1;
    }
    assert(add.mem_arrays.take(k as int) == add.mem_arrays);
}

/// Plans the inlining of all instances of one module.
fn plan_module(mods: &Vec<IrModule>, at: usize) -> (plan: Plan)
    requires
        at < mods@.len(),
    ensures
        planned(plan, mods@, mods@[at as int], mods@[at as int].instances@.len() as int),
{
    let parent = &mods[at];
    let insts = &parent.instances;
    let mut plan = Plan {
        nets: Vec::new(),
        assigns: Vec::new(),
        mem_arrays: Vec::new(),
        keep: Vec::new(),
        count: 0,
    };
    let mut i: usize = 0;
    proof {
        let r = inline_instances(mods@, *parent, insts@.take(0));
        assert(crate::ir::nets_view(plan.nets@) =~= r.nets);
        assert(crate::ir::assigns_view(plan.assigns@) =~= r.assigns);
        assert(crate::ir::mem_arrays_view(plan.mem_arrays@) =~= r.mem_arrays);
    }
    while i < insts.len()
        invariant
            i <= insts@.len(),
            *insts == parent.instances,
            planned(plan, mods@, *parent, i as int),
        decreases insts@.len() - i,
    {
        assert(insts@.take(i + 1).drop_last() == insts@.take(i as int));
        assert(insts@.take(i + 1).last() == insts@[i as int]);
        match find_inline_target(mods, &insts[i]) {
            Some(t) => {
                add_instance(&mut plan, &mods[t], &insts[i], parent);
                plan.keep.push(false);
                plan.count = plan.count.saturating_add(1);
            },
            None => {
                plan.keep.push(true);
            },
        }
        i = i + 1;
    }
    assert(insts@.take(i as int) == insts@);
    plan
}

/// The instances that stay are those without an inline target.
proof fn lemma_kept_instances(mods: Seq<IrModule>, parent: IrModule, insts: Seq<IrInstance>)
    ensures
        inline_instances(mods, parent, insts).instances == insts.filter(
            |x: IrInstance| inline_target(mods, x) is None,
        ),
    decreases insts.len(),
{
    reveal(Seq::filter);
    if insts.len() > 0 {
        lemma_kept_instances(mods, parent, insts.drop_last());
    }
}

/// Carries out a plan.
fn apply_plan(parent: &mut IrModule, plan: Plan, Ghost(mods): Ghost<Seq<IrModule>>)
    requires
        planned(plan, mods, *old(parent), old(parent).instances@.len() as int),
    ensures
        is_inlined(mods, *old(parent), *final(parent)),
{
    let ghost p0 = *parent;
    let ghost insts = p0.instances@;
    let ghost stay = |x: IrInstance| inline_target(mods, x) is None;
    let Plan { nets, assigns, mem_arrays, keep, count } = plan;
    let mut nets = nets;
    let mut assigns = assigns;
    let mut mem_arrays = mem_arrays;
    assert(insts.take(insts.len() as int) == insts);
    let mut pos: usize = 0;
    let mut k: usize = 0;
    assert(insts.take(0).filter(stay) =~= Seq::empty()) by {
        reveal(Seq::filter);
    }
    assert(insts.skip(0) == insts);
    while k < keep.len()
        invariant
            k <= keep@.len() == insts.len(),
            insts == p0.instances@,
            *parent == (IrModule { instances: parent.instances, ..p0 }),
            stay == (|x: IrInstance| inline_target(mods, x) is None),
            forall|i: int|
                0 <= i < keep@.len() ==> #[trigger] keep@[i] == (inline_target(
                    mods,
                    insts[i],
                ) is None),
            pos == insts.take(k as int).filter(stay).len(),
            parent.instances@ == insts.take(k as int).filter(stay) + insts.skip(k as int),
        decreases keep@.len() - k,
    {
        let ghost kept = insts.take(k as int).filter(stay);
        proof {
            assert(insts.take(k + 1).drop_last() == insts.take(k as int));
            assert(insts.take(k + 1).last() == insts[k as int]);
            reveal(Seq::filter);
            assert(insts.take(k + 1).filter(stay) == if keep@[k as int] {
                kept.push(insts[k as int])
            } else {
                kept
            });
        }
        if keep[k] {
            pos = pos + 1;
            assert(parent.instances@ =~= kept.push(insts[k as int]) + insts.skip(k + 1));
        } else {
            parent.instances.remove(pos);
            assert(parent.instances@ =~= kept + insts.skip(k + 1));
        }
        k = k + 1;
    }
    assert(insts.take(k as int) == insts);
    assert(parent.instances@ =~= insts.filter(stay));
    proof {
        lemma_kept_instances(mods, p0, insts);
    }
    let ghost new_nets = crate::ir::nets_view(nets@);
    let ghost new_assigns = crate::ir::assigns_view(assigns@);
    let ghost new_mems = crate::ir::mem_arrays_view(mem_arrays@);
    parent.nets.append(&mut nets);
    parent.assigns.append(&mut assigns);
    parent.mem_arrays.append(&mut mem_arrays);
    assert(crate::ir::nets_view(parent.nets@) =~= crate::ir::nets_view(p0.nets@) + new_nets);
    assert(crate::ir::assigns_view(parent.assigns@) =~= crate::ir::assigns_view(p0.assigns@)
        + new_assigns);
    assert(crate::ir::mem_arrays_view(parent.mem_arrays@) =~= crate::ir::mem_arrays_view(
        p0.mem_arrays@,
    ) + new_mems);
}

/// Number of instances that are inlined in the first modules.
pub open spec fn inlined_count(mods: Seq<IrModule>, n: int) -> nat
    decreases n,
{
    if n <= 0 {
        0
    } else {
        inlined_count(mods, n - 1) + inline_instances(
            mods,
            mods[n - 1],
            mods[n - 1].instances@,
        ).count
    }
}

/// Replaces the inlinable instances of every module. Returns their number.
pub fn module_inlining(project: &mut IrProject) -> (count: usize)
    ensures
        final(project).modules@.len() == old(project).modules@.len(),
        forall|i: int|
            0 <= i < final(project).modules@.len() ==> is_inlined(
                old(project).modules@,
                old(project).modules@[i],
                #[trigger] final(project).modules@[i],
            ),
        *final(project) == (IrProject { modules: final(project).modules, ..*old(project) }),
        count == super::rewrite::sat(
            inlined_count(old(project).modules@, old(project).modules@.len() as int),
        ),
{
    let ghost mods = project.modules@;
    let n: usize = project.modules.len();
    let mut plans: Vec<Plan> = Vec::new();
    let mut total: usize = 0;
    let mut i: usize = 0;
    while i < n
        invariant
            i <= n,
            n == mods.len(),
            project.modules@ == mods,
            *project == *old(project),
            plans@.len() == i,
            forall|j: int|
                0 <= j < i ==> planned(
                    #[trigger] plans@[j],
                    mods,
                    mods[j],
                    mods[j].instances@.len() as int,
                ),
            total == super::rewrite::sat(inlined_count(mods, i as int)),
        decreases n - i,
    {
        let plan = plan_module(&project.modules, i);
        assert(mods[i as int].instances@.take(mods[i as int].instances@.len() as int)
            == mods[i as int].instances@);
        total = total.saturating_add(plan.count);
        plans.push(plan);
        i = i + 1;
    }
    // Plans leave from the back.
    let mut k: usize = n;
    while k > 0
        invariant
            k <= n,
            n == mods.len(),
            mods == old(project).modules@,
            project.modules@.len() == n,
            *project == (IrProject { modules: project.modules, ..*old(project) }),
            plans@.len() == k,
            forall|j: int| 0 <= j < k ==> #[trigger] project.modules@[j] == mods[j],
            forall|j: int|
                0 <= j < k ==> planned(
                    #[trigger] plans@[j],
                    mods,
                    mods[j],
                    mods[j].instances@.len() as int,
                ),
            forall|j: int|
                k <= j < n ==> is_inlined(mods, mods[j], #[trigger] project.modules@[j]),
        decreases k,
    {
        let plan = plans.pop().unwrap();
        k = k - 1;
        assert(planned(plan, mods, mods[k as int], mods[k as int].instances@.len() as int));
        assert(project.modules@[k as int] == mods[k as int]);
        apply_plan(&mut project.modules[k], plan, Ghost(mods));
    }
    total
}

} // verus!
