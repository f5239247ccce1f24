//! A summary of every module of a project: its nets, instances and driven signals, and the
//! modules that nothing instantiates.
use crate::expr_const::{const_eval_param_expr, resolve_local_param_values};
use crate::number::u64_text;
use crate::parser::cst::{
    AssignTarget, CstModule, CstModuleItem, Expr, SynExpr, SynItem, SynModule, SynPort, SynTarget,
};
use crate::parser::module::parse_cst;
use crate::text::{concat_str, str_eq};
use crate::{DiagM, Diagnostic, Port, SourceFile};
use vstd::prelude::*;

verus! {

/// Summary of a project.
#[derive(Debug)]
pub struct SemanticProject {
    pub modules: Vec<SemanticModule>,
    pub diagnostics: Vec<Diagnostic>,
    /// Names of modules that are not instantiated by any other module.
    pub top_modules: Vec<String>,
}

/// Summary of one module.
#[derive(Debug)]
pub struct SemanticModule {
    pub name: String,
    pub path: String,
    pub ports: Vec<Port>,
    pub nets: Vec<String>,
    pub instances: Vec<InstanceRef>,
    pub assigns: Vec<AssignRef>,
}

#[derive(Debug, Clone, PartialEq, Eq)]
pub struct InstanceRef {
    pub module_name: String,
    pub instance_name: String,
}

#[derive(Debug, Clone, PartialEq, Eq)]
pub struct AssignRef {
    pub lhs: String,
}

/// Model of [`SemanticModule`].
pub ghost struct SemModule {
    pub name: Seq<char>,
    pub path: Seq<char>,
    pub ports: Seq<SynPort>,
    pub nets: Seq<Seq<char>>,
    pub instances: Seq<(Seq<char>, Seq<char>)>,
    pub assigns: Seq<Seq<char>>,
}

pub open spec fn instances_view(s: Seq<InstanceRef>) -> Seq<(Seq<char>, Seq<char>)> {
    Seq::new(s.len(), |i: int| (s[i].module_name@, s[i].instance_name@))
}

pub open spec fn assigns_view(s: Seq<AssignRef>) -> Seq<Seq<char>> {
    Seq::new(s.len(), |i: int| s[i].lhs@)
}

impl SemanticModule {
    pub open spec fn view(&self) -> SemModule {
        SemModule {
            name: self.name@,
            path: self.path@,
            ports: crate::parser::cst::ports_view(self.ports@),
            nets: crate::parser::cst::names_view(self.nets@),
            instances: instances_view(self.instances@),
            assigns: assigns_view(self.assigns@),
        }
    }
}

pub open spec fn sem_modules_view(s: Seq<SemanticModule>) -> Seq<SemModule> {
    Seq::new(s.len(), |i: int| s[i]@)
}

/// The local parameter assignments among some items, in order.
pub open spec fn local_pairs(items: Seq<SynItem>) -> Seq<(Seq<char>, SynExpr)>
    decreases items.len(),
{
    if items.len() == 0 {
        Seq::empty()
    } else {
        local_pairs(items.drop_last()) + match items.last() {
            SynItem::LocalParam { assignments } => assignments,
            _ => Seq::empty(),
        }
    }
}

/// The parameters of a module: those of its header, then those of its body.
pub open spec fn module_pairs(m: SynModule) -> Seq<(Seq<char>, SynExpr)> {
    m.module_parameters + local_pairs(m.items)
}

/// The signals that a target drives, from the left.
pub open spec fn leaves(t: SynTarget) -> Seq<Seq<char>>
    decreases t,
{
    match t {
        SynTarget::Whole(s) => seq![s],
        SynTarget::BitSelect { reg, .. } => seq![reg],
        SynTarget::PartSelect { reg, .. } => seq![reg],
        SynTarget::Concat(ts) => all_leaves(ts),
    }
}

pub open spec fn all_leaves(ts: Seq<SynTarget>) -> Seq<Seq<char>>
    decreases ts,
{
    if ts.len() == 0 {
        Seq::empty()
    } else {
        all_leaves(ts.drop_last()) + leaves(ts.last())
    }
}

/// Number of copies that a generate loop with this bound makes.
pub open spec fn copies(
    bound: SynExpr,
    known: crate::expr_const::Known,
) -> nat {
    match crate::expr_const::param_value(bound, known) {
        Some(v) => if v > 0 {
            v as nat
        } else {
            0
        },
        None => 0,
    }
}

/// Name of copy `k` of a generated instance.
pub open spec fn copy_name(stem: Seq<char>, k: nat) -> Seq<char> {
    stem + "__"@ + crate::number::decimal_digits(k)
}

/// The instances that one item makes.
pub open spec fn item_instances(item: SynItem, known: crate::expr_const::Known) -> Seq<
    (Seq<char>, Seq<char>),
> {
    match item {
        SynItem::Instance { module_name, instance_name, .. } => seq![(module_name, instance_name)],
        SynItem::GenerateFor { upper_expr, module_name, instance_stem, .. } => Seq::new(
            copies(upper_expr, known),
            |k: int| (module_name, copy_name(instance_stem, k as nat)),
        ),
        _ => Seq::empty(),
    }
}

/// The signals that one item drives.
pub open spec fn item_assigns(item: SynItem) -> Seq<Seq<char>> {
    match item {
        SynItem::Assign { target, .. } => leaves(target),
        SynItem::GenerateForAssigns { assigns, .. } => body_leaves(assigns),
        _ => Seq::empty(),
    }
}

pub open spec fn body_leaves(assigns: Seq<(SynTarget, SynExpr, (u32, u32))>) -> Seq<Seq<char>>
    decreases assigns.len(),
{
    if assigns.len() == 0 {
        Seq::empty()
    } else {
        body_leaves(assigns.drop_last()) + leaves(assigns.last().0)
    }
}

/// The nets that one item declares.
pub open spec fn item_nets(item: SynItem) -> Seq<Seq<char>> {
    match item {
        SynItem::NetDecl { names, .. } => names,
        _ => Seq::empty(),
    }
}

pub open spec fn all_nets(items: Seq<SynItem>) -> Seq<Seq<char>>
    decreases items.len(),
{
    if items.len() == 0 {
        Seq::empty()
    } else {
        all_nets(items.drop_last()) + item_nets(items.last())
    }
}

pub open spec fn all_instances(items: Seq<SynItem>, known: crate::expr_const::Known) -> Seq<
    (Seq<char>, Seq<char>),
>
    decreases items.len(),
{
    if items.len() == 0 {
        Seq::empty()
    } else {
        all_instances(items.drop_last(), known) + item_instances(items.last(), known)
    }
}

pub open spec fn all_assigns(items: Seq<SynItem>) -> Seq<Seq<char>>
    decreases items.len(),
{
    if items.len() == 0 {
        Seq::empty()
    } else {
        all_assigns(items.drop_last()) + item_assigns(items.last())
    }
}

/// The summary of a module. Items nested in generate constructs other than loops over one
/// instance or over assigns are not looked into.
pub open spec fn summary(m: SynModule) -> SemModule {
    SemModule {
        name: m.name,
        path: m.path,
        ports: m.ports,
        nets: all_nets(m.items),
        instances: all_instances(m.items, crate::expr_const::param_values(module_pairs(m))),
        assigns: all_assigns(m.items),
    }
}

/// Values of the parameters of a module.
pub fn module_locals_for_cst(m: &CstModule) -> (r: Vec<(String, i64)>)
    ensures
        crate::expr_const::table(r@) == crate::expr_const::param_values(module_pairs(m@)),
{
    let mut pairs = crate::parser::cst::clone_pairs(&m.module_parameters);
    let ghost head = crate::parser::cst::pairs_view(pairs@);
    let ghost items = crate::parser::cst::items_view(m.items@);
    let mut i: usize = 0;
    assert(head + local_pairs(items.take(0)) =~= head);
    while i < m.items.len()
        invariant
            i <= m.items@.len(),
            items == crate::parser::cst::items_view(m.items@),
            crate::parser::cst::pairs_view(pairs@) == head + local_pairs(items.take(i as int)),
        decreases m.items@.len() - i,
    {
        let ghost before = crate::parser::cst::pairs_view(pairs@);
        assert(items.take(i + 1).drop_last() == items.take(i as int));
        assert(items.take(i + 1).last() == m.items@[i as int]@);
        if let CstModuleItem::LocalParam { assignments } = &m.items[i] {
            let mut more = crate::parser::cst::clone_pairs(assignments);
            let ghost added = crate::parser::cst::pairs_view(more@);
            pairs.append(&mut more);
            assert(crate::parser::cst::pairs_view(pairs@) =~= before + added);
            assert(before + added =~= head + (local_pairs(items.take(i as int)) + added));
        } else {
            assert(local_pairs(items.take(i + 1)) =~= local_pairs(items.take(i as int)));
        }
        i = i + 1;
    }
    assert(items.take(i as int) == items);
    resolve_local_param_values(pairs.as_slice())
}

fn collect_lhs(t: &AssignTarget, out: &mut Vec<AssignRef>)
    ensures
        assigns_view(final(out)@) == assigns_view(old(out)@) + leaves(t@),
    decreases t,
{
    let ghost before = assigns_view(out@);
    match t {
        AssignTarget::Whole(s) => {
            out.push(AssignRef { lhs: s.clone() });
            assert(assigns_view(out@) =~= before + seq![s@]);
        },
        AssignTarget::BitSelect { reg, index } => {
            out.push(AssignRef { lhs: reg.clone() });
            assert(assigns_view(out@) =~= before + seq![reg@]);
        },
        AssignTarget::PartSelect { reg, msb, lsb } => {
            out.push(AssignRef { lhs: reg.clone() });
            assert(assigns_view(out@) =~= before + seq![reg@]);
        },
        AssignTarget::Concat(ts) => {
            let ghost model = crate::parser::cst::targets_view(ts@);
            let mut i: usize = 0;
            assert(before + all_leaves(model.take(0)) =~= before);
            while i < ts.len()
                invariant
                    i <= ts@.len(),
                    model == crate::parser::cst::targets_view(ts@),
                    assigns_view(out@) == before + all_leaves(model.take(i as int)),
                    decreases_to!(t => ts@),
                decreases ts@.len() - i,
            {
                assert(decreases_to!(ts@ => ts@[i as int]));
                assert(model.take(i + 1).drop_last() == model.take(i as int));
                assert(model.take(i + 1).last() == ts@[i as int]@);
                collect_lhs(&ts[i], out);
                assert(assigns_view(out@) =~= before + all_leaves(model.take(i + 1)));
                i = i + 1;
            }
            assert(model.take(i as int) == model);
        },
    }
}

fn generated_instances(
    bound: &Expr,
    module_name: &str,
    stem: &str,
    locals: &[(String, i64)],
    out: &mut Vec<InstanceRef>,
)
    ensures
        instances_view(final(out)@) == instances_view(old(out)@) + Seq::new(
            copies(bound@, crate::expr_const::table(locals@)),
            |k: int| (module_name@, copy_name(stem@, k as nat)),
        ),
{
    let ghost before = instances_view(out@);
    let n: u64 = match const_eval_param_expr(bound, locals) {
        Some(v) => if v > 0 {
            v as u64
        } else {
            0
        },
        None => 0,
    };
    let ghost made = Seq::new(n as nat, |k: int| (module_name@, copy_name(stem@, k as nat)));
    let mut k: u64 = 0;
    assert(before + made.take(0) =~= before);
    while k < n
        invariant
            k <= n,
            made == Seq::new(n as nat, |k: int| (module_name@, copy_name(stem@, k as nat))),
            instances_view(out@) == before + made.take(k as int),
        decreases n - k,
    {
        let ghost so_far = instances_view(out@);
        let head = concat_str(stem, "__");
        let digits = u64_text(k);
        let instance_name = concat_str(head.as_str(), digits.as_str());
        out.push(InstanceRef { module_name: module_name.to_owned(), instance_name });
        assert(instances_view(out@) =~= so_far.push(made[k as int]));
        assert(made.take(k + 1) =~= made.take(k as int).push(made[k as int]));
        assert(before + made.take(k + 1) =~= so_far.push(made[k as int]));
        k = k + 1;
    }
    assert(made.take(k as int) == made);
}

/// Summarises a module.
pub fn build_semantic_module(cst: &CstModule) -> (r: SemanticModule)
    ensures
        r@ == summary(cst@),
{
    let locals = module_locals_for_cst(cst);
    let ghost known = crate::expr_const::table(locals@);
    let ghost items = crate::parser::cst::items_view(cst.items@);
    let mut nets: Vec<String> = Vec::new();
    let mut instances: Vec<InstanceRef> = Vec::new();
    let mut assigns: Vec<AssignRef> = Vec::new();
    assert(crate::parser::cst::names_view(nets@) =~= Seq::empty());
    assert(instances_view(instances@) =~= Seq::empty());
    assert(assigns_view(assigns@) =~= Seq::empty());
    let mut i: usize = 0;
    while i < cst.items.len()
        invariant
            i <= cst.items@.len(),
            items == crate::parser::cst::items_view(cst.items@),
            known == crate::expr_const::table(locals@),
            crate::parser::cst::names_view(nets@) == all_nets(items.take(i as int)),
            instances_view(instances@) == all_instances(items.take(i as int), known),
            assigns_view(assigns@) == all_assigns(items.take(i as int)),
        decreases cst.items@.len() - i,
    {
        let ghost nets0 = crate::parser::cst::names_view(nets@);
        let ghost inst0 = instances_view(instances@);
        let ghost asgn0 = assigns_view(assigns@);
        let ghost item = cst.items@[i as int]@;
        assert(items.take(i + 1).drop_last() == items.take(i as int));
        assert(items.take(i + 1).last() == item);
        match &cst.items[i] {
            CstModuleItem::NetDecl { names, .. } => {
                let mut more = crate::parser::cst::clone_names(names);
                let ghost added = crate::parser::cst::names_view(more@);
                nets.append(&mut more);
                assert(crate::parser::cst::names_view(nets@) =~= nets0 + added);
            },
            CstModuleItem::Assign { target, .. } => {
                collect_lhs(target, &mut assigns);
            },
            CstModuleItem::Instance { module_name, instance_name, .. } => {
                instances.push(
                    InstanceRef {
                        module_name: module_name.clone(),
                        instance_name: instance_name.clone(),
                    },
                );
                assert(instances_view(instances@) =~= inst0 + seq![
                    (module_name@, instance_name@),
                ]);
            },
            CstModuleItem::GenerateFor { upper_expr, module_name, instance_stem, .. } => {
                generated_instances(
                    upper_expr,
                    module_name.as_str(),
                    instance_stem.as_str(),
                    locals.as_slice(),
                    &mut instances,
                );
            },
            CstModuleItem::GenerateForAssigns { assigns: body, .. } => {
                let ghost model = crate::parser::cst::gen_assigns_view(body@);
                let mut j: usize = 0;
                assert(asgn0 + body_leaves(model.take(0)) =~= asgn0);
                while j < body.len()
                    invariant
                        j <= body@.len(),
                        model == crate::parser::cst::gen_assigns_view(body@),
                        assigns_view(assigns@) == asgn0 + body_leaves(model.take(j as int)),
                    decreases body@.len() - j,
                {
                    assert(model.take(j + 1).drop_last() == model.take(j as int));
                    assert(model.take(j + 1).last().0 == body@[j as int].0@);
                    collect_lhs(&body[j].0, &mut assigns);
                    assert(assigns_view(assigns@) =~= asgn0 + body_leaves(model.take(j + 1)));
                    j = j + 1;
                }
                assert(model.take(j as int) == model);
            },
            _ => {},
        }
        proof {
            assert(all_nets(items.take(i + 1)) == nets0 + item_nets(item));
            assert(all_assigns(items.take(i + 1)) == asgn0 + item_assigns(item));
            assert(all_instances(items.take(i + 1), known) == inst0 + item_instances(item, known));
            assert(nets0 + Seq::<Seq<char>>::empty() =~= nets0);
            assert(asgn0 + Seq::<Seq<char>>::empty() =~= asgn0);
            assert(inst0 + Seq::<(Seq<char>, Seq<char>)>::empty() =~= inst0);
        }
        i = i + 1;
    }
    assert(items.take(i as int) == items);
    let ports = clone_ports(&cst.ports);
    SemanticModule {
        name: cst.name.clone(),
        path: cst.path.clone(),
        ports,
        nets,
        instances,
        assigns,
    }
}

fn clone_ports(v: &Vec<Port>) -> (r: Vec<Port>)
    ensures
        crate::parser::cst::ports_view(r@) == crate::parser::cst::ports_view(v@),
{
    let mut out: Vec<Port> = Vec::new();
    let mut i: usize = 0;
    while i < v.len()
        invariant
            i <= v@.len(),
            out@.len() == i,
            forall|j: int|
                0 <= j < i ==> crate::parser::cst::port_view(#[trigger] out@[j])
                    == crate::parser::cst::port_view(v@[j]),
        decreases v@.len() - i,
    {
        let p = &v[i];
        let direction = match &p.direction {
            Some(d) => Some(d.clone()),
            None => None,
        };
        out.push(Port { direction, name: p.name.clone(), width: p.width });
        i = i + 1;
    }
    assert(crate::parser::cst::ports_view(out@) =~= crate::parser::cst::ports_view(v@));
    out
}

/// Summaries and diagnostics of one source.
pub open spec fn file_summary(f: SourceFile) -> (Seq<SemModule>, Seq<DiagM>) {
    let p = crate::parser::module::parsed(crate::source_input(f.path@, f.content@));
    (Seq::new(p.0.len(), |i: int| summary(p.0[i])), p.1)
}

/// Summaries and diagnostics of all sources, in order.
pub open spec fn project_summary(files: Seq<SourceFile>) -> (Seq<SemModule>, Seq<DiagM>)
    decreases files.len(),
{
    if files.len() == 0 {
        (Seq::empty(), Seq::empty())
    } else {
        let before = project_summary(files.drop_last());
        let f = file_summary(files.last());
        (before.0 + f.0, before.1 + f.1)
    }
}

/// Some module of another name instantiates a module called `name`.
pub open spec fn referenced(ms: Seq<SemModule>, name: Seq<char>) -> bool {
    exists|i: int, j: int|
        0 <= i < ms.len() && ms[i].name != name && 0 <= j < ms[i].instances.len() && (
        #[trigger] ms[i].instances[j]).0 == name
}

/// Names of the modules that no other module instantiates, each once, by first appearance.
pub open spec fn top_names(ms: Seq<SemModule>, upto: Seq<SemModule>) -> Seq<Seq<char>>
    decreases upto.len(),
{
    if upto.len() == 0 {
        Seq::empty()
    } else {
        let before = top_names(ms, upto.drop_last());
        let name = upto.last().name;
        if referenced(ms, name) || before.contains(name) {
            before
        } else {
            before.push(name)
        }
    }
}

fn is_referenced(ms: &Vec<SemanticModule>, name: &str) -> (r: bool)
    ensures
        r == referenced(sem_modules_view(ms@), name@),
{
    let ghost model = sem_modules_view(ms@);
    let mut i: usize = 0;
    while i < ms.len()
        invariant
            i <= ms@.len(),
            model == sem_modules_view(ms@),
            forall|a: int, b: int|
                0 <= a < i && model[a].name != name@ && 0 <= b < model[a].instances.len() ==> (
                #[trigger] model[a].instances[b]).0 != name@,
        decreases ms@.len() - i,
    {
        assert(model[i as int].name == ms@[i as int].name@);
        if str_eq(ms[i].name.as_str(), name) {
            i = i + 1;
            continue;
        }
        let insts = &ms[i].instances;
        assert(model[i as int].instances == instances_view(insts@));
        let mut j: usize = 0;
        while j < insts.len()
            invariant
                i < ms@.len(),
                model == sem_modules_view(ms@),
                model[i as int].name != name@,
                model[i as int].instances == instances_view(insts@),
                j <= insts@.len(),
                forall|b: int|
                    0 <= b < j ==> (#[trigger] model[i as int].instances[b]).0 != name@,
            decreases insts@.len() - j,
        {
            assert(model[i as int].instances[j as int].0 == insts@[j as int].module_name@);
            if str_eq(insts[j].module_name.as_str(), name) {
                return true;
            }
            j = j + 1;
        }
        i = i + 1;
    }
    false
}

fn holds_name(names: &Vec<String>, name: &str) -> (r: bool)
    ensures
        r == crate::parser::cst::names_view(names@).contains(name@),
{
    let ghost model = crate::parser::cst::names_view(names@);
    let mut i: usize = 0;
    while i < names.len()
        invariant
            i <= names@.len(),
            model == crate::parser::cst::names_view(names@),
            forall|j: int| 0 <= j < i ==> #[trigger] model[j] != name@,
        decreases names@.len() - i,
    {
        if str_eq(names[i].as_str(), name) {
            assert(model[i as int] == name@);
            return true;
        }
        i = i + 1;
    }
    false
}

/// Analyzes the sources that were read: a summary of each module, the diagnostics, and the
/// modules that no other module instantiates.
pub fn analyze_project(files: &[SourceFile]) -> (r: SemanticProject)
    ensures
        (sem_modules_view(r.modules@), crate::diags_view(r.diagnostics@)) == project_summary(
            files@,
        ),
        crate::parser::cst::names_view(r.top_modules@) == top_names(
            sem_modules_view(r.modules@),
            sem_modules_view(r.modules@),
        ),
{
    let mut modules: Vec<SemanticModule> = Vec::new();
    let mut diagnostics: Vec<Diagnostic> = Vec::new();
    assert(sem_modules_view(modules@) =~= Seq::empty());
    assert(crate::diags_view(diagnostics@) =~= Seq::empty());
    let mut i: usize = 0;
    while i < files.len()
        invariant
            i <= files@.len(),
            (sem_modules_view(modules@), crate::diags_view(diagnostics@)) == project_summary(
                files@.take(i as int),
            ),
        decreases files@.len() - i,
    {
        let ghost ms0 = sem_modules_view(modules@);
        let ghost ds0 = crate::diags_view(diagnostics@);
        assert(files@.take(i + 1).drop_last() == files@.take(i as int));
        assert(files@.take(i + 1).last() == files@[i as int]);
        let file = &files[i];
        let tokens = crate::lexer::lex(file);
        proof {
            crate::lexer::law_tokens_in_order(file.content@);
            assert(crate::lexer::tokens_view(tokens@).last() == tokens@.last()@);
        }
        let (cst, diags) = parse_cst(file, tokens.as_slice());
        let ghost parsed = crate::parser::cst::modules_view(cst.modules@);
        let ghost made = file_summary(*file).0;
        let mut diags = diags;
        let ghost new_diags = crate::diags_view(diags@);
        diagnostics.append(&mut diags);
        assert(crate::diags_view(diagnostics@) =~= ds0 + new_diags);
        assert(ms0 + made.take(0) =~= ms0);
        let mut j: usize = 0;
        while j < cst.modules.len()
            invariant
                j <= cst.modules@.len(),
                parsed == crate::parser::cst::modules_view(cst.modules@),
                made == Seq::new(parsed.len(), |i: int| summary(parsed[i])),
                sem_modules_view(modules@) == ms0 + made.take(j as int),
            decreases cst.modules@.len() - j,
        {
            let ghost so_far = sem_modules_view(modules@);
            let m = build_semantic_module(&cst.modules[j]);
            assert(parsed[j as int] == cst.modules@[j as int]@);
            modules.push(m);
            assert(sem_modules_view(modules@) =~= so_far.push(made[j as int]));
            assert(made.take(j + 1) =~= made.take(j as int).push(made[j as int]));
            assert(ms0 + made.take(j + 1) =~= so_far.push(made[j as int]));
            j = j + 1;
        }
        assert(made.take(j as int) == made);
        i = i + 1;
    }
    assert(files@.take(i as int) == files@);
    let ghost model = sem_modules_view(modules@);
    let mut top_modules: Vec<String> = Vec::new();
    assert(crate::parser::cst::names_view(top_modules@) =~= Seq::empty());
    let mut k: usize = 0;
    while k < modules.len()
        invariant
            k <= modules@.len(),
            model == sem_modules_view(modules@),
            crate::parser::cst::names_view(top_modules@) == top_names(
                model,
                model.take(k as int),
            ),
        decreases modules@.len() - k,
    {
        let ghost before = crate::parser::cst::names_view(top_modules@);
        assert(model.take(k + 1).drop_last() == model.take(k as int));
        assert(model.take(k + 1).last() == modules@[k as int]@);
        let name = modules[k].name.clone();
        if !is_referenced(&modules, name.as_str()) && !holds_name(&top_modules, name.as_str()) {
            top_modules.push(name);
            assert(crate::parser::cst::names_view(top_modules@) =~= before.push(name@));
        }
        k = k + 1;
    }
    assert(model.take(k as int) == model);
    SemanticProject { modules, diagnostics, top_modules }
}

/// The top modules are exactly the modules that no module of another name instantiates, each
/// listed once.
pub proof fn law_top_modules(ms: Seq<SemModule>)
    ensures
        top_names(ms, ms).no_duplicates(),
        forall|name: Seq<char>| #[trigger]
            top_names(ms, ms).contains(name) <==> !referenced(ms, name) && exists|i: int|
                0 <= i < ms.len() && (#[trigger] ms[i]).name == name,
{
    lemma_top_names(ms, ms);
    assert forall|name: Seq<char>| #[trigger]
        top_names(ms, ms).contains(name) <==> !referenced(ms, name) && exists|i: int|
            0 <= i < ms.len() && (#[trigger] ms[i]).name == name by {
        assert(top_names(ms, ms).contains(name) <==> !referenced(ms, name) && named(ms, name));
    }
}

/// One of the modules is called `name`.
pub open spec fn named(ms: Seq<SemModule>, name: Seq<char>) -> bool {
    exists|i: int| 0 <= i < ms.len() && (#[trigger] ms[i]).name == name
}

proof fn lemma_top_names(ms: Seq<SemModule>, upto: Seq<SemModule>)
    ensures
        top_names(ms, upto).no_duplicates(),
        forall|name: Seq<char>| #[trigger]
            top_names(ms, upto).contains(name) <==> !referenced(ms, name) && named(upto, name),
    decreases upto.len(),
{
    if upto.len() > 0 {
        lemma_top_names(ms, upto.drop_last());
        let before = top_names(ms, upto.drop_last());
        let r = top_names(ms, upto);
        let last = upto.last().name;
        assert forall|name: Seq<char>| #[trigger]
            r.contains(name) <==> !referenced(ms, name) && named(upto, name) by {
            assert(named(upto, name) <==> named(upto.drop_last(), name) || name == last) by {
                if named(upto, name) {
                    let i = choose|i: int| 0 <= i < upto.len() && (#[trigger] upto[i]).name == name;
                    if i < upto.len() - 1 {
                        assert(upto.drop_last()[i].name == name);
                    }
                }
                if named(upto.drop_last(), name) {
                    let i = choose|i: int|
                        0 <= i < upto.len() - 1 && (#[trigger] upto.drop_last()[i]).name == name;
                    assert(upto[i].name == name);
                }
                assert(upto[upto.len() - 1].name == last);
            }
            assert(before.contains(name) <==> !referenced(ms, name) && named(
                upto.drop_last(),
                name,
            ));
            if r == before.push(last) && r != before {
                assert(r.contains(name) <==> before.contains(name) || name == last) by {
                    if r.contains(name) {
                        let i = choose|i: int| 0 <= i < r.len() && r[i] == name;
                        if i < before.len() {
                            assert(before[i] == name);
                        }
                    }
                    if before.contains(name) {
                        let i = choose|i: int| 0 <= i < before.len() && before[i] == name;
                        assert(r[i] == name);
                    }
                    assert(r[r.len() - 1] == last);
                }
            }
        }
        if !referenced(ms, last) && !before.contains(last) {
            assert forall|i: int, j: int| 0 <= i < r.len() && 0 <= j < r.len() && i != j implies r[i]
                != r[j] by {
                if i < before.len() && j < before.len() {
                } else if i < before.len() {
                    assert(before.contains(before[i]));
                } else {
                    assert(before.contains(before[j]));
                }
            }
        }
    }
}

} // verus!
