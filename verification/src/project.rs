//! Project-wide decisions: which module is simulated, what is indexed, and how a
//! diagnostic reads.
use crate::ir::{IrModule, IrProject};
use crate::number::u64_text;
use crate::paths::{module_looks_like_testbench, source_file_looks_like_testbench};
use crate::text::{concat_str, str_eq, str_lt};
use crate::{Diagnostic, Severity, SourceFile};
use vstd::prelude::*;

verus! {

/// Text of `path:line:column: severity: message`.
pub open spec fn diagnostic_line(d: crate::DiagM) -> Seq<char> {
    let path = if d.path.len() == 0 {
        "<unknown>"@
    } else {
        d.path
    };
    let severity = match d.severity {
        Severity::Error => "error"@,
        Severity::Warning => "warning"@,
        Severity::Info => "info"@,
    };
    path + ":"@ + crate::number::decimal_digits(d.line as nat) + ":"@
        + crate::number::decimal_digits(d.column as nat) + ": "@ + severity + ": "@ + d.message
}

impl Diagnostic {
    /// Single-line message: `path:line:column: severity: message`.
    pub fn format_line(&self) -> (r: String)
        ensures
            r@ == diagnostic_line(self@),
    {
        let path = if self.path.as_str().unicode_len() == 0 {
            "<unknown>".to_owned()
        } else {
            self.path.clone()
        };
        let severity = match self.severity {
            Severity::Error => "error",
            Severity::Warning => "warning",
            Severity::Info => "info",
        };
        let line = u64_text(self.line as u64);
        let column = u64_text(self.column as u64);
        let a = concat_str(path.as_str(), ":");
        let b = concat_str(a.as_str(), line.as_str());
        let c = concat_str(b.as_str(), ":");
        let d = concat_str(c.as_str(), column.as_str());
        let e = concat_str(d.as_str(), ": ");
        let f = concat_str(e.as_str(), severity);
        let g = concat_str(f.as_str(), ": ");
        concat_str(g.as_str(), self.message.as_str())
    }
}

/// Some module of the project instantiates a module called `name`.
pub open spec fn instantiated(ms: Seq<IrModule>, name: Seq<char>) -> bool {
    exists|i: int, j: int|
        0 <= i < ms.len() && 0 <= j < ms[i].instances@.len() && (
        #[trigger] ms[i].instances@[j]).module_name@ == name
}

/// What a root module may be picked by.
#[derive(Debug, Clone, Copy, PartialEq, Eq, Structural)]
pub enum Trait {
    /// No module instantiates it.
    Root,
    /// Its name is that of a testbench.
    BenchName,
    /// The name of its file is that of a testbench.
    BenchFile,
    /// It has initial blocks.
    Initial,
    /// It has instances.
    Instances,
}

pub open spec fn has_trait(ms: Seq<IrModule>, m: IrModule, t: Trait) -> bool {
    match t {
        Trait::Root => !instantiated(ms, m.name@),
        Trait::BenchName => crate::paths::bench_module(m.name@),
        Trait::BenchFile => crate::paths::bench_path(m.path@),
        Trait::Initial => m.initial_blocks@.len() > 0,
        Trait::Instances => m.instances@.len() > 0,
    }
}

pub open spec fn having(ms: Seq<IrModule>, from: Seq<IrModule>, t: Trait) -> Seq<IrModule> {
    from.filter(|m: IrModule| has_trait(ms, m, t))
}

/// The greatest name of a list of modules.
pub open spec fn last_name(ms: Seq<IrModule>) -> Seq<char>
    decreases ms.len(),
{
    if ms.len() == 0 {
        Seq::empty()
    } else if ms.len() == 1 || !crate::text::text_lt(ms.last().name@, last_name(ms.drop_last())) {
        ms.last().name@
    } else {
        last_name(ms.drop_last())
    }
}

/// The module that is simulated where none is asked for, out of the roots `tops`. Among
/// several roots those named as testbenches are preferred, then those in files named as
/// testbenches, then the only one with initial blocks, then the only one with instances;
/// of several the last by name is taken.
pub open spec fn top_among(ms: Seq<IrModule>, tops: Seq<IrModule>) -> Option<Seq<char>> {
    if tops.len() == 0 {
        None
    } else if having(ms, tops, Trait::BenchName).len() > 0 && tops.len() > 1 {
        Some(last_name(having(ms, tops, Trait::BenchName)))
    } else if having(ms, tops, Trait::BenchFile).len() > 0 && tops.len() > 1 {
        Some(last_name(having(ms, tops, Trait::BenchFile)))
    } else if having(ms, tops, Trait::Initial).len() == 1 && tops.len() > 1 {
        Some(having(ms, tops, Trait::Initial)[0].name@)
    } else if having(ms, tops, Trait::Instances).len() == 1 && tops.len() > 1 {
        Some(having(ms, tops, Trait::Instances)[0].name@)
    } else {
        Some(last_name(tops))
    }
}

/// The modules at some places of a list.
pub open spec fn at_places(ms: Seq<IrModule>, idx: Seq<usize>) -> Seq<IrModule> {
    Seq::new(idx.len(), |i: int| ms[idx[i] as int])
}

fn is_instantiated(ms: &Vec<IrModule>, name: &str) -> (r: bool)
    ensures
        r == instantiated(ms@, name@),
{
    let mut i: usize = 0;
    while i < ms.len()
        invariant
            i <= ms@.len(),
            forall|a: int, b: int|
                0 <= a < i && 0 <= b < ms@[a].instances@.len() ==> (
                #[trigger] ms@[a].instances@[b]).module_name@ != name@,
        decreases ms@.len() - i,
    {
        let insts = &ms[i].instances;
        let mut j: usize = 0;
        while j < insts.len()
            invariant
                i < ms@.len(),
                insts == ms@[i as int].instances,
                j <= insts@.len(),
                forall|b: int| 0 <= b < j ==> (#[trigger] insts@[b]).module_name@ != name@,
            decreases insts@.len() - j,
        {
            if str_eq(insts[j].module_name.as_str(), name) {
                assert(ms@[i as int].instances@[j as int].module_name@ == name@);
                return true;
            }
            j = j + 1;
        }
        i = i + 1;
    }
    false
}

fn module_has(ms: &Vec<IrModule>, i: usize, t: Trait) -> (r: bool)
    requires
        i < ms@.len(),
    ensures
        r == has_trait(ms@, ms@[i as int], t),
{
    match t {
        Trait::Root => !is_instantiated(ms, ms[i].name.as_str()),
        Trait::BenchName => module_looks_like_testbench(ms[i].name.as_str()),
        Trait::BenchFile => source_file_looks_like_testbench(ms[i].path.as_str()),
        Trait::Initial => ms[i].initial_blocks.len() > 0,
        Trait::Instances => ms[i].instances.len() > 0,
    }
}

fn select(ms: &Vec<IrModule>, from: &Vec<usize>, t: Trait) -> (r: Vec<usize>)
    requires
        forall|i: int| 0 <= i < from@.len() ==> (#[trigger] from@[i]) < ms@.len(),
    ensures
        forall|i: int| 0 <= i < r@.len() ==> (#[trigger] r@[i]) < ms@.len(),
        at_places(ms@, r@) == having(ms@, at_places(ms@, from@), t),
{
    let ghost model = at_places(ms@, from@);
    let mut out: Vec<usize> = Vec::new();
    let mut k: usize = 0;
    proof {
        reveal(Seq::filter);
        assert(at_places(ms@, out@) =~= having(ms@, model.take(0), t));
    }
    while k < from.len()
        invariant
            k <= from@.len(),
            model == at_places(ms@, from@),
            forall|i: int| 0 <= i < from@.len() ==> (#[trigger] from@[i]) < ms@.len(),
            forall|i: int| 0 <= i < out@.len() ==> (#[trigger] out@[i]) < ms@.len(),
            at_places(ms@, out@) == having(ms@, model.take(k as int), t),
        decreases from@.len() - k,
    {
        let ghost before = out@;
        proof {
            reveal(Seq::filter);
            assert(model.take(k + 1).drop_last() == model.take(k as int));
            assert(model.take(k + 1).last() == ms@[from@[k as int] as int]);
        }
        if module_has(ms, from[k], t) {
            out.push(from[k]);
            assert(at_places(ms@, out@) =~= at_places(ms@, before).push(
                ms@[from@[k as int] as int],
            ));
        }
        k = k + 1;
    }
    assert(model.take(k as int) == model);
    out
}

fn last_by_name(ms: &Vec<IrModule>, idx: &Vec<usize>) -> (r: String)
    requires
        idx@.len() > 0,
        forall|i: int| 0 <= i < idx@.len() ==> (#[trigger] idx@[i]) < ms@.len(),
    ensures
        r@ == last_name(at_places(ms@, idx@)),
{
    let ghost model = at_places(ms@, idx@);
    let mut best: String = ms[idx[0]].name.clone();
    let mut k: usize = 1;
    proof {
        assert(model.take(1).last() == model[0]);
    }
    while k < idx.len()
        invariant
            1 <= k <= idx@.len(),
            model == at_places(ms@, idx@),
            forall|i: int| 0 <= i < idx@.len() ==> (#[trigger] idx@[i]) < ms@.len(),
            best@ == last_name(model.take(k as int)),
        decreases idx@.len() - k,
    {
        proof {
            assert(model.take(k + 1).drop_last() == model.take(k as int));
            assert(model.take(k + 1).last() == ms@[idx@[k as int] as int]);
        }
        let name = &ms[idx[k]].name;
        if !str_lt(name.as_str(), best.as_str()) {
            best = name.clone();
        }
        k = k + 1;
    }
    assert(model.take(k as int) == model);
    best
}

/// Picks the module to simulate where the caller names none.
pub fn find_top_module(project: &IrProject) -> (r: Result<String, String>)
    ensures
        ({
            let ms = project.modules@;
            match top_among(ms, having(ms, ms, Trait::Root)) {
                Some(name) => r is Ok && r->Ok_0@ == name,
                None => r is Err && r->Err_0@ == "no modules found in project"@,
            }
        }),
{
    let ms = &project.modules;
    let mut all: Vec<usize> = Vec::new();
    let mut i: usize = 0;
    while i < ms.len()
        invariant
            i <= ms@.len(),
            all@.len() == i,
            forall|j: int| 0 <= j < i ==> #[trigger] all@[j] == j,
        decreases ms@.len() - i,
    {
        all.push(i);
        i = i + 1;
    }
    assert(at_places(ms@, all@) =~= ms@);
    let tops = select(ms, &all, Trait::Root);
    let ghost model = at_places(ms@, tops@);
    if tops.len() == 0 {
        return Err("no modules found in project".to_owned());
    }
    if tops.len() > 1 {
        let named = select(ms, &tops, Trait::BenchName);
        if named.len() > 0 {
            return Ok(last_by_name(ms, &named));
        }
        let placed = select(ms, &tops, Trait::BenchFile);
        if placed.len() > 0 {
            return Ok(last_by_name(ms, &placed));
        }
        let with_initial = select(ms, &tops, Trait::Initial);
        if with_initial.len() == 1 {
            assert(at_places(ms@, with_initial@)[0] == ms@[with_initial@[0] as int]);
            return Ok(ms[with_initial[0]].name.clone());
        }
        let with_inst = select(ms, &tops, Trait::Instances);
        if with_inst.len() == 1 {
            assert(at_places(ms@, with_inst@)[0] == ms@[with_inst@[0] as int]);
            return Ok(ms[with_inst[0]].name.clone());
        }
    }
    Ok(last_by_name(ms, &tops))
}

/// The module found is a root of the project: it is one of its modules, and none of them
/// instantiates it.
pub proof fn law_top_is_a_root(ms: Seq<IrModule>)
    ensures
        match top_among(ms, having(ms, ms, Trait::Root)) {
            Some(name) => !instantiated(ms, name) && exists|i: int|
                0 <= i < ms.len() && (#[trigger] ms[i]).name@ == name,
            None => forall|i: int| 0 <= i < ms.len() ==> instantiated(ms, (#[trigger] ms[i]).name@),
        },
{
    let tops = having(ms, ms, Trait::Root);
    lemma_having(ms, ms, Trait::Root);
    if tops.len() == 0 {
        assert forall|i: int| 0 <= i < ms.len() implies instantiated(ms, (#[trigger] ms[i]).name@) by {
            if !instantiated(ms, ms[i].name@) {
                assert(has_trait(ms, ms[i], Trait::Root));
                assert(tops.contains(ms[i]));
            }
        }
    } else {
        lemma_having(ms, tops, Trait::BenchName);
        lemma_having(ms, tops, Trait::BenchFile);
        lemma_having(ms, tops, Trait::Initial);
        lemma_having(ms, tops, Trait::Instances);
        let from = if having(ms, tops, Trait::BenchName).len() > 0 && tops.len() > 1 {
            having(ms, tops, Trait::BenchName)
        } else if having(ms, tops, Trait::BenchFile).len() > 0 && tops.len() > 1 {
            having(ms, tops, Trait::BenchFile)
        } else if having(ms, tops, Trait::Initial).len() == 1 && tops.len() > 1 {
            having(ms, tops, Trait::Initial)
        } else if having(ms, tops, Trait::Instances).len() == 1 && tops.len() > 1 {
            having(ms, tops, Trait::Instances)
        } else {
            tops
        };
        assert(from.len() > 0);
        assert forall|k: int| 0 <= k < from.len() implies tops.contains(#[trigger] from[k]) by {
            assert(from.contains(from[k]));
        }
        lemma_last_name_is_one(from);
        let k = choose|k: int| 0 <= k < from.len() && (#[trigger] from[k]).name@ == last_name(from);
        let name = top_among(ms, tops).unwrap();
        assert(from.len() == 1 ==> from[0].name@ == last_name(from));
        assert(name == from[k].name@ || (from.len() == 1 && name == from[0].name@));
        let m = if name == from[k].name@ {
            from[k]
        } else {
            from[0]
        };
        assert(tops.contains(m));
        assert(has_trait(ms, m, Trait::Root));
        assert(ms.contains(m));
        let i = choose|i: int| 0 <= i < ms.len() && ms[i] == m;
        assert(ms[i].name@ == name);
    }
}

proof fn lemma_having(ms: Seq<IrModule>, from: Seq<IrModule>, t: Trait)
    ensures
        forall|m: IrModule| #[trigger]
            having(ms, from, t).contains(m) <==> from.contains(m) && has_trait(ms, m, t),
    decreases from.len(),
{
    let r = having(ms, from, t);
    reveal(Seq::filter);
    if from.len() > 0 {
        lemma_having(ms, from.drop_last(), t);
        let before = having(ms, from.drop_last(), t);
        let l = from.last();
        assert forall|m: IrModule| #[trigger]
            r.contains(m) <==> from.contains(m) && has_trait(ms, m, t) by {
            assert(from.contains(m) <==> from.drop_last().contains(m) || m == l) by {
                if from.contains(m) {
                    let i = choose|i: int| 0 <= i < from.len() && from[i] == m;
                    if i < from.len() - 1 {
                        assert(from.drop_last()[i] == m);
                    }
                }
                if from.drop_last().contains(m) {
                    let i = choose|i: int| 0 <= i < from.len() - 1 && from.drop_last()[i] == m;
                    assert(from[i] == m);
                }
                assert(from[from.len() - 1] == l);
            }
            if has_trait(ms, l, t) {
                assert(r == before.push(l));
                assert(r.contains(m) <==> before.contains(m) || m == l) by {
                    if r.contains(m) {
                        let i = choose|i: int| 0 <= i < r.len() && r[i] == m;
                        if i < before.len() {
                            assert(before[i] == m);
                        }
                    }
                    if before.contains(m) {
                        let i = choose|i: int| 0 <= i < before.len() && before[i] == m;
                        assert(r[i] == m);
                    }
                    assert(r[r.len() - 1] == l);
                }
            } else {
                assert(r == before);
            }
        }
    }
}

proof fn lemma_last_name_is_one(ms: Seq<IrModule>)
    requires
        ms.len() > 0,
    ensures
        exists|k: int| 0 <= k < ms.len() && (#[trigger] ms[k]).name@ == last_name(ms),
    decreases ms.len(),
{
    if ms.len() == 1 || !crate::text::text_lt(ms.last().name@, last_name(ms.drop_last())) {
        assert(ms[ms.len() - 1].name@ == last_name(ms));
    } else {
        lemma_last_name_is_one(ms.drop_last());
        let k = choose|k: int|
            0 <= k < ms.len() - 1 && (#[trigger] ms.drop_last()[k]).name@ == last_name(
                ms.drop_last(),
            );
        assert(ms[k].name@ == last_name(ms));
    }
}

/// A module and the file that it is declared in.
#[derive(Debug, Clone, PartialEq, Eq)]
pub struct ModuleEntry {
    pub name: String,
    pub path: String,
}

#[derive(Debug)]
pub struct ProjectIndex {
    pub modules: Vec<ModuleEntry>,
}

/// Views of a list of entries.
pub open spec fn entries_view(s: Seq<ModuleEntry>) -> Seq<(Seq<char>, Seq<char>)> {
    Seq::new(s.len(), |i: int| (s[i].name@, s[i].path@))
}

/// The modules of one source.
pub open spec fn file_entries(f: SourceFile) -> Seq<(Seq<char>, Seq<char>)> {
    let p = crate::parser::module::parsed(crate::source_input(f.path@, f.content@));
    Seq::new(p.0.len(), |i: int| (p.0[i].name, p.0[i].path))
}

/// The modules of all sources, in order.
pub open spec fn index_entries(files: Seq<SourceFile>) -> Seq<(Seq<char>, Seq<char>)>
    decreases files.len(),
{
    if files.len() == 0 {
        Seq::empty()
    } else {
        index_entries(files.drop_last()) + file_entries(files.last())
    }
}

/// Lists the modules of the sources that were read.
pub fn index_project(files: &[SourceFile]) -> (r: ProjectIndex)
    ensures
        entries_view(r.modules@) == index_entries(files@),
{
    let mut modules: Vec<ModuleEntry> = Vec::new();
    assert(entries_view(modules@) =~= Seq::empty());
    let mut i: usize = 0;
    while i < files.len()
        invariant
            i <= files@.len(),
            entries_view(modules@) == index_entries(files@.take(i as int)),
        decreases files@.len() - i,
    {
        let ghost before = entries_view(modules@);
        let ghost entries = file_entries(files@[i as int]);
        assert(files@.take(i + 1).drop_last() == files@.take(i as int));
        assert(files@.take(i + 1).last() == files@[i as int]);
        let parsed = crate::parse_file(files[i].path.as_str(), files[i].content.as_str());
        let ghost list = crate::module_list(parsed.modules@);
        proof {
            let p = crate::parser::module::parsed(
                crate::source_input(files@[i as int].path@, files@[i as int].content@),
            );
            assert(list.len() == p.0.len());
            assert forall|k: int| 0 <= k < entries.len() implies #[trigger] entries[k] == (
                parsed.modules@[k].name@,
                parsed.modules@[k].path@,
            ) by {
                assert(list[k] == crate::parser::module::listed(p.0[k]));
                assert(list[k] == parsed.modules@[k]@);
            }
        }
        assert(before + entries.take(0) =~= before);
        let mut j: usize = 0;
        while j < parsed.modules.len()
            invariant
                j <= parsed.modules@.len(),
                parsed.modules@.len() == entries.len(),
                forall|k: int|
                    0 <= k < entries.len() ==> #[trigger] entries[k] == (
                        parsed.modules@[k].name@,
                        parsed.modules@[k].path@,
                    ),
                entries_view(modules@) == before + entries.take(j as int),
            decreases parsed.modules@.len() - j,
        {
            let ghost so_far = entries_view(modules@);
            let m = &parsed.modules[j];
            modules.push(ModuleEntry { name: m.name.clone(), path: m.path.clone() });
            assert(entries_view(modules@) =~= so_far.push(entries[j as int]));
            assert(entries.take(j + 1) =~= entries.take(j as int).push(entries[j as int]));
            assert(before + entries.take(j + 1) =~= so_far.push(entries[j as int]));
            j = j + 1;
        }
        assert(entries.take(j as int) == entries);
        i = i + 1;
    }
    assert(files@.take(i as int) == files@);
    ProjectIndex { modules }
}

} // verus!
