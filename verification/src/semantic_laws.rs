//! Laws: what a summary of a project says, in terms of the items of its modules.
use crate::expr_const::Known;
use crate::parser::cst::{SynExpr, SynItem, SynModule, SynTarget};
use crate::semantic::SemModule;
use vstd::prelude::*;

verus! {

/// The signal `x` is driven by an assignment to `t`: the target is the signal or a part of
/// it, or a concatenation with a part that drives it.
pub open spec fn drives(t: SynTarget, x: Seq<char>) -> bool
    decreases t,
{
    match t {
        SynTarget::Whole(s) => s == x,
        SynTarget::BitSelect { reg, .. } => reg == x,
        SynTarget::PartSelect { reg, .. } => reg == x,
        SynTarget::Concat(ts) => exists|i: int| 0 <= i < ts.len() && drives(#[trigger] ts[i], x),
    }
}

/// `name` is that of copy `k` of an instance: the stem, two underscores, and `k` in decimal
/// digits.
pub open spec fn names_copy(name: Seq<char>, stem: Seq<char>, k: int) -> bool {
    let head = stem.len() + 2;
    &&& name.len() > head
    &&& name.take(stem.len() as int) == stem
    &&& name[stem.len() as int] == '_'
    &&& name[stem.len() as int + 1] == '_'
    &&& crate::number::signed_value(name.skip(head as int), 10) == Some(k as i64)
    &&& forall|i: int| head <= i < name.len() ==> '0' <= #[trigger] name[i] <= '9'
}

proof fn lemma_copy_name(stem: Seq<char>, k: nat)
    requires
        k <= i64::MAX,
    ensures
        names_copy(crate::semantic::copy_name(stem, k), stem, k as int),
{
    let name = crate::semantic::copy_name(stem, k);
    let d = crate::number::decimal_digits(k);
    reveal_strlit("__");
    crate::number::law_decimal_digits_value(k);
    crate::number::law_decimal_round_trip(k as i64);
    assert(name.take(stem.len() as int) =~= stem);
    assert(name.skip(stem.len() as int + 2) =~= d);
    assert(crate::number::decimal(k as int) == d);
    assert forall|i: int| stem.len() + 2 <= i < name.len() implies '0' <= #[trigger] name[i]
        <= '9' by {
        assert(name[i] == d[i - stem.len() - 2]);
    }
}

/// A generate loop over one instance makes the instances that the loop
/// `for (k = 0; k < n; k = k + 1)` goes through: one for every `k` from 0 up to its bound
/// `n`, the bound itself left out, in order, and of the module that the loop names. There is
/// none where the bound is negative or has no value.
pub proof fn law_generated_instances(
    loop_var: Seq<char>,
    bound: SynExpr,
    module_name: Seq<char>,
    parameter_assignments: Seq<(Seq<char>, SynExpr)>,
    stem: Seq<char>,
    connections: Seq<crate::parser::cst::SynConn>,
    known: Known,
)
    ensures
        ({
            let made = crate::semantic::item_instances(
                SynItem::GenerateFor {
                    loop_var,
                    upper_expr: bound,
                    module_name,
                    parameter_assignments,
                    instance_stem: stem,
                    connections,
                },
                known,
            );
            match crate::expr_const::param_value(bound, known) {
                None => made.len() == 0,
                Some(n) => {
                    &&& n <= 0 ==> made.len() == 0
                    &&& n > 0 ==> made.len() == n
                    &&& forall|k: int|
                        0 <= k < n ==> (#[trigger] made[k]).0 == module_name && names_copy(
                            made[k].1,
                            stem,
                            k,
                        )
                },
            }
        }),
{
    let made = crate::semantic::item_instances(
        SynItem::GenerateFor {
            loop_var,
            upper_expr: bound,
            module_name,
            parameter_assignments,
            instance_stem: stem,
            connections,
        },
        known,
    );
    if let Some(n) = crate::expr_const::param_value(bound, known) {
        assert forall|k: int| 0 <= k < n implies (#[trigger] made[k]).0 == module_name
            && names_copy(made[k].1, stem, k) by {
            lemma_copy_name(stem, k as nat);
        }
    }
}

proof fn lemma_in_sum<A>(a: Seq<A>, b: Seq<A>, x: A)
    ensures
        (a + b).contains(x) <==> a.contains(x) || b.contains(x),
{
    if (a + b).contains(x) {
        let i = choose|i: int| 0 <= i < (a + b).len() && (a + b)[i] == x;
        if i < a.len() {
            assert(a[i] == x);
        } else {
            assert(b[i - a.len()] == x);
        }
    }
    if a.contains(x) {
        let i = choose|i: int| 0 <= i < a.len() && a[i] == x;
        assert((a + b)[i] == x);
    }
    if b.contains(x) {
        let i = choose|i: int| 0 <= i < b.len() && b[i] == x;
        assert((a + b)[i + a.len()] == x);
    }
}

/// The signals listed of a target are those that it drives.
pub proof fn law_driven_signals(t: SynTarget, x: Seq<char>)
    ensures
        crate::semantic::leaves(t).contains(x) <==> drives(t, x),
    decreases t, 1nat,
{
    match t {
        SynTarget::Concat(ts) => {
            lemma_leaves_of_all(ts, x);
        },
        SynTarget::Whole(s) => {
            assert(seq![s][0] == s);
        },
        SynTarget::BitSelect { reg, .. } => {
            assert(seq![reg][0] == reg);
        },
        SynTarget::PartSelect { reg, .. } => {
            assert(seq![reg][0] == reg);
        },
    }
}

proof fn lemma_leaves_of_all(ts: Seq<SynTarget>, x: Seq<char>)
    ensures
        crate::semantic::all_leaves(ts).contains(x) <==> exists|i: int|
            0 <= i < ts.len() && drives(#[trigger] ts[i], x),
    decreases ts, 0nat,
{
    if ts.len() > 0 {
        let front = ts.drop_last();
        lemma_leaves_of_all(front, x);
        assert(decreases_to!(ts => ts[ts.len() - 1]));
        law_driven_signals(ts.last(), x);
        lemma_in_sum(
            crate::semantic::all_leaves(front),
            crate::semantic::leaves(ts.last()),
            x,
        );
        if exists|i: int| 0 <= i < front.len() && drives(#[trigger] front[i], x) {
            let i = choose|i: int| 0 <= i < front.len() && drives(#[trigger] front[i], x);
            assert(ts[i] == front[i]);
        }
        if exists|i: int| 0 <= i < ts.len() && drives(#[trigger] ts[i], x) {
            let i = choose|i: int| 0 <= i < ts.len() && drives(#[trigger] ts[i], x);
            if i < front.len() {
                assert(front[i] == ts[i]);
            }
        }
        if drives(ts.last(), x) {
            assert(drives(ts[ts.len() - 1], x));
        }
    }
}

/// The item declares the net `x`.
pub open spec fn declares(item: SynItem, x: Seq<char>) -> bool {
    item matches SynItem::NetDecl { names, .. } && names.contains(x)
}

/// The item drives the signal `x`: a continuous assign, or one of those of a generate loop.
pub open spec fn item_drives(item: SynItem, x: Seq<char>) -> bool {
    match item {
        SynItem::Assign { target, .. } => drives(target, x),
        SynItem::GenerateForAssigns { assigns, .. } => exists|i: int|
            0 <= i < assigns.len() && drives((#[trigger] assigns[i]).0, x),
        _ => false,
    }
}

/// The item makes an instance of `module` that is called `name`.
pub open spec fn item_makes(item: SynItem, known: Known, module: Seq<char>, name: Seq<char>) -> bool {
    match item {
        SynItem::Instance { module_name, instance_name, .. } => module_name == module
            && instance_name == name,
        SynItem::GenerateFor { upper_expr, module_name, instance_stem, .. } => module_name
            == module && exists|k: int|
            #![trigger crate::semantic::copy_name(instance_stem, k as nat)]
            0 <= k && crate::expr_const::param_value(upper_expr, known) is Some && k
                < crate::expr_const::param_value(upper_expr, known).unwrap() && name
                == crate::semantic::copy_name(instance_stem, k as nat),
        _ => false,
    }
}

/// What a summary lists: the name, path and ports of the module; as nets exactly the
/// declared ones; as driven signals exactly those that an assign drives; and as instances
/// exactly those that an item makes.
pub proof fn law_summary_lists(m: SynModule, x: Seq<char>, y: Seq<char>)
    ensures
        ({
            let s = crate::semantic::summary(m);
            let known = crate::expr_const::param_values(
                m.module_parameters + crate::semantic::local_pairs(m.items),
            );
            &&& s.name == m.name && s.path == m.path && s.ports == m.ports
            &&& s.nets.contains(x) <==> exists|i: int|
                0 <= i < m.items.len() && declares(#[trigger] m.items[i], x)
            &&& s.assigns.contains(x) <==> exists|i: int|
                0 <= i < m.items.len() && item_drives(#[trigger] m.items[i], x)
            &&& s.instances.contains((x, y)) <==> exists|i: int|
                0 <= i < m.items.len() && item_makes(#[trigger] m.items[i], known, x, y)
        }),
{
    let known = crate::expr_const::param_values(crate::semantic::module_pairs(m));
    lemma_nets(m.items, x);
    lemma_assigns(m.items, x);
    lemma_instances(m.items, known, x, y);
}

proof fn lemma_nets(items: Seq<SynItem>, x: Seq<char>)
    ensures
        crate::semantic::all_nets(items).contains(x) <==> exists|i: int|
            0 <= i < items.len() && declares(#[trigger] items[i], x),
    decreases items.len(),
{
    if items.len() > 0 {
        let front = items.drop_last();
        lemma_nets(front, x);
        lemma_in_sum(
            crate::semantic::all_nets(front),
            crate::semantic::item_nets(items.last()),
            x,
        );
        if exists|i: int| 0 <= i < front.len() && declares(#[trigger] front[i], x) {
            let i = choose|i: int| 0 <= i < front.len() && declares(#[trigger] front[i], x);
            assert(declares(items[i], x));
        }
        if exists|i: int| 0 <= i < items.len() && declares(#[trigger] items[i], x) {
            let i = choose|i: int| 0 <= i < items.len() && declares(#[trigger] items[i], x);
            if i < front.len() {
                assert(declares(front[i], x));
            }
        }
        if crate::semantic::item_nets(items.last()).contains(x) {
            assert(declares(items[items.len() - 1], x));
        }
    }
}

proof fn lemma_assigns(items: Seq<SynItem>, x: Seq<char>)
    ensures
        crate::semantic::all_assigns(items).contains(x) <==> exists|i: int|
            0 <= i < items.len() && item_drives(#[trigger] items[i], x),
    decreases items.len(),
{
    if items.len() > 0 {
        let front = items.drop_last();
        lemma_assigns(front, x);
        lemma_item_assigns(items.last(), x);
        lemma_in_sum(
            crate::semantic::all_assigns(front),
            crate::semantic::item_assigns(items.last()),
            x,
        );
        if exists|i: int| 0 <= i < front.len() && item_drives(#[trigger] front[i], x) {
            let i = choose|i: int| 0 <= i < front.len() && item_drives(#[trigger] front[i], x);
            assert(item_drives(items[i], x));
        }
        if exists|i: int| 0 <= i < items.len() && item_drives(#[trigger] items[i], x) {
            let i = choose|i: int| 0 <= i < items.len() && item_drives(#[trigger] items[i], x);
            if i < front.len() {
                assert(item_drives(front[i], x));
            }
        }
        if item_drives(items.last(), x) {
            assert(item_drives(items[items.len() - 1], x));
        }
    }
}

proof fn lemma_item_assigns(item: SynItem, x: Seq<char>)
    ensures
        crate::semantic::item_assigns(item).contains(x) <==> item_drives(item, x),
{
    match item {
        SynItem::Assign { target, .. } => {
            law_driven_signals(target, x);
        },
        SynItem::GenerateForAssigns { assigns, .. } => {
            lemma_body_leaves(assigns, x);
        },
        _ => {},
    }
}

proof fn lemma_body_leaves(assigns: Seq<(SynTarget, SynExpr, (u32, u32))>, x: Seq<char>)
    ensures
        crate::semantic::body_leaves(assigns).contains(x) <==> exists|i: int|
            0 <= i < assigns.len() && drives((#[trigger] assigns[i]).0, x),
    decreases assigns.len(),
{
    if assigns.len() > 0 {
        let front = assigns.drop_last();
        lemma_body_leaves(front, x);
        law_driven_signals(assigns.last().0, x);
        lemma_in_sum(
            crate::semantic::body_leaves(front),
            crate::semantic::leaves(assigns.last().0),
            x,
        );
        if exists|i: int| 0 <= i < front.len() && drives((#[trigger] front[i]).0, x) {
            let i = choose|i: int| 0 <= i < front.len() && drives((#[trigger] front[i]).0, x);
            assert(assigns[i] == front[i]);
        }
        if exists|i: int| 0 <= i < assigns.len() && drives((#[trigger] assigns[i]).0, x) {
            let i = choose|i: int| 0 <= i < assigns.len() && drives((#[trigger] assigns[i]).0, x);
            if i < front.len() {
                assert(front[i] == assigns[i]);
            }
        }
        if drives(assigns.last().0, x) {
            assert(drives(assigns[assigns.len() - 1].0, x));
        }
    }
}

proof fn lemma_instances(items: Seq<SynItem>, known: Known, x: Seq<char>, y: Seq<char>)
    ensures
        crate::semantic::all_instances(items, known).contains((x, y)) <==> exists|i: int|
            0 <= i < items.len() && item_makes(#[trigger] items[i], known, x, y),
    decreases items.len(),
{
    if items.len() > 0 {
        let front = items.drop_last();
        lemma_instances(front, known, x, y);
        lemma_item_instances(items.last(), known, x, y);
        lemma_in_sum(
            crate::semantic::all_instances(front, known),
            crate::semantic::item_instances(items.last(), known),
            (x, y),
        );
        if exists|i: int| 0 <= i < front.len() && item_makes(#[trigger] front[i], known, x, y) {
            let i = choose|i: int|
                0 <= i < front.len() && item_makes(#[trigger] front[i], known, x, y);
            assert(item_makes(items[i], known, x, y));
        }
        if exists|i: int| 0 <= i < items.len() && item_makes(#[trigger] items[i], known, x, y) {
            let i = choose|i: int|
                0 <= i < items.len() && item_makes(#[trigger] items[i], known, x, y);
            if i < front.len() {
                assert(item_makes(front[i], known, x, y));
            }
        }
        if item_makes(items.last(), known, x, y) {
            assert(item_makes(items[items.len() - 1], known, x, y));
        }
    }
}

proof fn lemma_item_instances(item: SynItem, known: Known, x: Seq<char>, y: Seq<char>)
    ensures
        crate::semantic::item_instances(item, known).contains((x, y)) <==> item_makes(
            item,
            known,
            x,
            y,
        ),
{
    let made = crate::semantic::item_instances(item, known);
    match item {
        SynItem::Instance { module_name, instance_name, .. } => {
            assert(made[0] == (module_name, instance_name));
        },
        SynItem::GenerateFor { upper_expr, module_name, instance_stem, .. } => {
            if made.contains((x, y)) {
                let k = choose|k: int| 0 <= k < made.len() && made[k] == (x, y);
                assert(y == crate::semantic::copy_name(instance_stem, k as nat));
            }
            if item_makes(item, known, x, y) {
                let k = choose|k: int|
                    #![trigger crate::semantic::copy_name(instance_stem, k as nat)]
                    0 <= k && crate::expr_const::param_value(upper_expr, known) is Some && k
                        < crate::expr_const::param_value(upper_expr, known).unwrap() && y
                        == crate::semantic::copy_name(instance_stem, k as nat);
                assert(made[k] == (x, y));
            }
        },
        _ => {},
    }
}

/// Module `i` of a project instantiates the module `name`.
pub open spec fn instantiates(m: SemModule, name: Seq<char>) -> bool {
    exists|k: int| 0 <= k < m.instances.len() && (#[trigger] m.instances[k]).0 == name
}

/// A name is listed as a top module exactly where some module has it, and no module of
/// another name instantiates it.
pub proof fn law_tops_are_uninstantiated(ms: Seq<SemModule>, name: Seq<char>)
    ensures
        crate::semantic::top_names(ms, ms).contains(name) <==> {
            &&& exists|i: int| 0 <= i < ms.len() && (#[trigger] ms[i]).name == name
            &&& forall|i: int|
                0 <= i < ms.len() && (#[trigger] ms[i]).name != name ==> !instantiates(ms[i], name)
        },
{
    crate::semantic::law_top_modules(ms);
    if crate::semantic::referenced(ms, name) {
        assert(exists|i: int|
            0 <= i < ms.len() && (#[trigger] ms[i]).name != name && instantiates(ms[i], name));
    }
}

/// The value of a parameter is that of its last definition, over the values of all the
/// parameters; it has one exactly where that definition does.
pub proof fn law_last_definition_counts(pairs: Seq<(Seq<char>, SynExpr)>, i: int)
    requires
        0 <= i < pairs.len(),
        forall|j: int| i < j < pairs.len() ==> (#[trigger] pairs[j]).0 != pairs[i].0,
    ensures
        ({
            let values = crate::expr_const::param_values(pairs);
            match crate::expr_const::param_value(pairs[i].1, values) {
                Some(v) => values.contains_key(pairs[i].0) && values[pairs[i].0] == v,
                None => !values.contains_key(pairs[i].0),
            }
        }),
{
    crate::expr_const::law_param_values_are_complete(pairs);
    lemma_defined(pairs, i);
    let values = crate::expr_const::param_values(pairs);
    let name = pairs[i].0;
    assert(crate::expr_const::decide(pairs, values).contains_key(name)
        <==> crate::expr_const::decided(pairs, values, name));
}

proof fn lemma_defined(pairs: Seq<(Seq<char>, SynExpr)>, i: int)
    requires
        0 <= i < pairs.len(),
        forall|j: int| i < j < pairs.len() ==> (#[trigger] pairs[j]).0 != pairs[i].0,
    ensures
        crate::expr_const::definition(pairs, pairs[i].0) == Some(pairs[i].1),
    decreases pairs.len(),
{
    if i < pairs.len() - 1 {
        assert(pairs[pairs.len() - 1].0 != pairs[i].0);
        assert(pairs.drop_last()[i] == pairs[i]);
        assert forall|j: int| i < j < pairs.drop_last().len() implies (
        #[trigger] pairs.drop_last()[j]).0 != pairs.drop_last()[i].0 by {
            assert(pairs[j].0 != pairs[i].0);
        }
        lemma_defined(pairs.drop_last(), i);
    }
}

/// The parameters of a module are those of its header, followed by the local ones of its
/// items in order.
pub proof fn law_local_parameters(a: Seq<SynItem>, b: Seq<SynItem>)
    ensures
        crate::semantic::local_pairs(a + b) == crate::semantic::local_pairs(a)
            + crate::semantic::local_pairs(b),
        b.len() == 1 && b[0] is LocalParam ==> crate::semantic::local_pairs(b)
            == b[0]->LocalParam_assignments,
        b.len() == 1 && !(b[0] is LocalParam) ==> crate::semantic::local_pairs(b).len() == 0,
    decreases b.len(),
{
    if b.len() == 0 {
        assert(a + b =~= a);
        assert(crate::semantic::local_pairs(a) + crate::semantic::local_pairs(b)
            =~= crate::semantic::local_pairs(a));
    } else {
        law_local_parameters(a, b.drop_last());
        assert((a + b).drop_last() =~= a + b.drop_last());
        assert((a + b).last() == b.last());
        assert(crate::semantic::local_pairs(a + b) =~= crate::semantic::local_pairs(a)
            + crate::semantic::local_pairs(b));
        if b.len() == 1 {
            assert(b.drop_last() =~= Seq::empty());
            assert(crate::semantic::local_pairs(b.drop_last()) =~= Seq::empty());
            if b[0] is LocalParam {
                assert(crate::semantic::local_pairs(b) =~= b[0]->LocalParam_assignments);
            }
        }
    }
}

/// What a module declares, drives, instantiates and names is listed in the order of its
/// items, with nothing left out or merged.
pub proof fn law_items_in_order(
    a: Seq<SynItem>,
    b: Seq<SynItem>,
    known: crate::expr_const::Known,
)
    ensures
        crate::semantic::all_nets(a + b) == crate::semantic::all_nets(a)
            + crate::semantic::all_nets(b),
        crate::semantic::all_assigns(a + b) == crate::semantic::all_assigns(a)
            + crate::semantic::all_assigns(b),
        crate::semantic::all_instances(a + b, known) == crate::semantic::all_instances(a, known)
            + crate::semantic::all_instances(b, known),
        crate::semantic::local_pairs(a + b) == crate::semantic::local_pairs(a)
            + crate::semantic::local_pairs(b),
    decreases b.len(),
{
    if b.len() == 0 {
        assert(a + b =~= a);
    } else {
        law_items_in_order(a, b.drop_last(), known);
        assert((a + b).drop_last() =~= a + b.drop_last());
        assert((a + b).last() == b.last());
    }
    assert(crate::semantic::all_nets(a + b) =~= crate::semantic::all_nets(a)
        + crate::semantic::all_nets(b));
    assert(crate::semantic::all_assigns(a + b) =~= crate::semantic::all_assigns(a)
        + crate::semantic::all_assigns(b));
    assert(crate::semantic::all_instances(a + b, known) =~= crate::semantic::all_instances(a, known)
        + crate::semantic::all_instances(b, known));
    assert(crate::semantic::local_pairs(a + b) =~= crate::semantic::local_pairs(a)
        + crate::semantic::local_pairs(b));
}

/// The signals of a concatenation of targets are those of its parts, in order; a target that
/// is none has one.
pub proof fn law_target_signals(a: Seq<SynTarget>, b: Seq<SynTarget>, t: SynTarget)
    ensures
        crate::semantic::all_leaves(a + b) == crate::semantic::all_leaves(a)
            + crate::semantic::all_leaves(b),
        crate::semantic::leaves(SynTarget::Concat(a)) == crate::semantic::all_leaves(a),
        crate::semantic::all_leaves(seq![t]) == crate::semantic::leaves(t),
        !(t is Concat) ==> crate::semantic::leaves(t) == seq![
            crate::parser::stmt_laws::target_name(t),
        ],
    decreases b.len(),
{
    if b.len() == 0 {
        assert(a + b =~= a);
    } else {
        law_target_signals(a, b.drop_last(), t);
        assert((a + b).drop_last() =~= a + b.drop_last());
        assert((a + b).last() == b.last());
    }
    assert(crate::semantic::all_leaves(a + b) =~= crate::semantic::all_leaves(a)
        + crate::semantic::all_leaves(b));
    let one = seq![t];
    assert(one.drop_last() =~= Seq::empty());
    reveal_with_fuel(crate::semantic::all_leaves, 2);
    assert(crate::semantic::all_leaves(one) =~= crate::semantic::leaves(t));
}

} // verus!
