//! One-shot simulation: what is run, and where the waveform goes.
use crate::ir::{IrModule, IrProject};
use crate::project::find_top_module;
use crate::sim_commands::is_file_name;
use crate::sim_session::{SimConfig, VcdRunMeta};
use crate::text::str_eq;
use vstd::prelude::*;

verus! {

/// The path of the first module of a name.
pub open spec fn path_of_module(ms: Seq<IrModule>, name: Seq<char>) -> Option<Seq<char>>
    decreases ms.len(),
{
    if ms.len() == 0 {
        None
    } else {
        match path_of_module(ms.drop_last(), name) {
            Some(p) => Some(p),
            None => if ms.last().name@ == name {
                Some(ms.last().path@)
            } else {
                None
            },
        }
    }
}

proof fn lemma_path_of_module(ms: Seq<IrModule>, k: int, name: Seq<char>)
    requires
        0 <= k <= ms.len(),
        path_of_module(ms.take(k), name) is Some,
    ensures
        path_of_module(ms, name) == path_of_module(ms.take(k), name),
    decreases ms.len(),
{
    if k == ms.len() {
        assert(ms.take(k) =~= ms);
    } else {
        assert(ms.drop_last().take(k) =~= ms.take(k));
        lemma_path_of_module(ms.drop_last(), k, name);
    }
}

/// The source path of a module.
pub fn source_path_of(project: &IrProject, name: &str) -> (r: Option<String>)
    ensures
        crate::sim_session::string_of(r) == path_of_module(project.modules@, name@),
{
    let ms = &project.modules;
    let mut i: usize = 0;
    while i < ms.len()
        invariant
            i <= ms@.len(),
            ms@ == project.modules@,
            path_of_module(ms@.take(i as int), name@) is None,
        decreases ms@.len() - i,
    {
        assert(ms@.take(i + 1).drop_last() =~= ms@.take(i as int));
        assert(ms@.take(i + 1).last() == ms@[i as int]);
        if str_eq(ms[i].name.as_str(), name) {
            proof {
                lemma_path_of_module(ms@, i + 1, name@);
            }
            return Some(ms[i].path.clone());
        }
        i = i + 1;
    }
    assert(ms@.take(i as int) =~= ms@);
    None
}

/// What a one-shot simulation runs.
#[derive(Debug)]
pub struct SimulationPlan {
    pub top_module: String,
    /// File name of the waveform.
    pub output_name: String,
    /// Source path of the top module.
    pub top_source_file: Option<String>,
    /// Source files whose initial delays bound the run.
    pub delay_files: Vec<String>,
}

/// A list with what there is.
pub open spec fn at_most_one(p: Option<Seq<char>>) -> Seq<Seq<char>> {
    match p {
        Some(x) => seq![x],
        None => Seq::empty(),
    }
}

fn copy_names(names: &[String]) -> (r: Vec<String>)
    ensures
        crate::parser::cst::names_view(r@) == crate::parser::cst::names_view(names@),
{
    let ghost model = crate::parser::cst::names_view(names@);
    let mut out: Vec<String> = Vec::new();
    let mut i: usize = 0;
    while i < names.len()
        invariant
            i <= names@.len(),
            model == crate::parser::cst::names_view(names@),
            crate::parser::cst::names_view(out@) == model.take(i as int),
        decreases names@.len() - i,
    {
        let ghost had = crate::parser::cst::names_view(out@);
        let name = names[i].clone();
        out.push(name);
        assert(crate::parser::cst::names_view(out@) =~= had.push(model[i as int]));
        assert(model.take(i + 1) =~= had.push(model[i as int]));
        i = i + 1;
    }
    assert(model.take(i as int) =~= model);
    out
}

/// Decides what is run: the asked top module or the one that is found; the delays of the
/// files that declare a timescale count, or those of the top module's file.
pub fn simulation_plan(
    project: &IrProject,
    top_override: Option<&str>,
    output_filename_hint: Option<&str>,
    timescale_source_files: &[String],
) -> (r: Result<SimulationPlan, String>)
    ensures
        match crate::sim_commands::chosen_top(
            project.modules@,
            crate::sim_session::text_of(top_override),
        ) {
            Some(top) => r matches Ok(p) && {
                &&& p.top_module@ == top
                &&& p.output_name@ == match output_filename_hint {
                    Some(f) => f@,
                    None => "circuit_scope.vcd"@,
                }
                &&& crate::sim_session::string_of(p.top_source_file) == path_of_module(
                    project.modules@,
                    top,
                )
                &&& crate::parser::cst::names_view(p.delay_files@) == if timescale_source_files@.len()
                    == 0 {
                    at_most_one(path_of_module(project.modules@, top))
                } else {
                    crate::parser::cst::names_view(timescale_source_files@)
                }
            },
            None => r matches Err(e) && e@ == "no modules found in project"@,
        },
{
    let top_module = match top_override {
        Some(t) => t.to_owned(),
        None => match find_top_module(project) {
            Ok(t) => t,
            Err(e) => {
                return Err(e);
            },
        },
    };
    let output_name = match output_filename_hint {
        Some(f) => f.to_owned(),
        None => "circuit_scope.vcd".to_owned(),
    };
    let top_source_file = source_path_of(project, top_module.as_str());
    let delay_files = if timescale_source_files.len() == 0 {
        let mut only: Vec<String> = Vec::new();
        match &top_source_file {
            Some(p) => {
                only.push(p.clone());
            },
            None => {},
        }
        assert(crate::parser::cst::names_view(only@) =~= at_most_one(
            path_of_module(project.modules@, top_module@),
        ));
        only
    } else {
        copy_names(timescale_source_files)
    };
    Ok(SimulationPlan { top_module, output_name, top_source_file, delay_files })
}

/// What a simulator is set up with for a plan: the asked number of cycles, or the one that
/// `cycles_for_delays` gives; initial delays count where there are any. The clock has a half
/// period of five units, which nobody asked for.
pub fn simulation_config(
    plan: SimulationPlan,
    timescale: &str,
    timescale_precision: &str,
    cycles: Option<usize>,
    cycles_for_delays: usize,
    delay_sum: u64,
    command_line: &str,
    output_vcd_path: &str,
    working_directory: Option<&str>,
) -> (r: SimConfig)
    ensures
        r.top_module@ == plan.top_module@,
        r.num_cycles == match cycles {
            Some(n) => n,
            None => cycles_for_delays,
        },
        r.timescale@ == timescale@,
        r.timescale_precision@ == timescale_precision@,
        r.clock_half_period == 5,
        !r.clock_half_period_is_explicit,
        r.initial_delay_sum_units == if delay_sum > 0 {
            Some(delay_sum)
        } else {
            None
        },
        r.vcd_meta matches Some(meta) && {
            &&& crate::sim_session::string_of(meta.top_source_file)
                == crate::sim_session::string_of(plan.top_source_file)
            &&& crate::sim_session::string_of(meta.command_line) == Some(command_line@)
            &&& crate::sim_session::string_of(meta.output_vcd_path) == Some(output_vcd_path@)
            &&& crate::sim_session::string_of(meta.working_directory)
                == crate::sim_session::text_of(working_directory)
        },
{
    let vcd_meta = VcdRunMeta {
        top_source_file: plan.top_source_file,
        command_line: Some(command_line.to_owned()),
        output_vcd_path: Some(output_vcd_path.to_owned()),
        working_directory: match working_directory {
            Some(d) => Some(d.to_owned()),
            None => None,
        },
    };
    SimConfig {
        top_module: plan.top_module,
        num_cycles: match cycles {
            Some(n) => n,
            None => cycles_for_delays,
        },
        timescale: timescale.to_owned(),
        timescale_precision: timescale_precision.to_owned(),
        clock_half_period: 5,
        clock_half_period_is_explicit: false,
        initial_delay_sum_units: if delay_sum > 0 {
            Some(delay_sum)
        } else {
            None
        },
        vcd_meta: Some(vcd_meta),
    }
}

/// A name that a file or a folder can have.
pub open spec fn is_entry_name(s: Seq<char>) -> bool {
    s.len() > 0 && crate::sim_commands::is_plain_name(s)
}

/// Whether a file or a folder can have a name.
pub fn is_valid_entry_name(name: &str) -> (r: bool)
    ensures
        r == is_entry_name(name@),
{
    let empty = str_eq(name, "");
    proof {
        reveal_strlit("");
        if name@.len() == 0 {
            assert(name@ =~= ""@);
        }
    }
    !empty && is_file_name(name)
}

/// The name of the waveform file of a run over some sources.
pub fn output_file_name(output_file: Option<&str>, sources: &[String]) -> (r: Result<
    String,
    String,
>)
    ensures
        ({
            let name = match output_file {
                Some(f) => f@,
                None => "circuit_scope.vcd"@,
            };
            match r {
                Ok(n) => is_entry_name(name) && sources@.len() > 0 && n@ == name,
                Err(e) => if !is_entry_name(name) {
                    e@ == "output_file must be a file name only, no path separators"@
                } else {
                    sources@.len() == 0 && e@
                        == "No Verilog sources (.v or .sv) found under this folder."@
                },
            }
        }),
{
    let name = match output_file {
        Some(f) => f.to_owned(),
        None => "circuit_scope.vcd".to_owned(),
    };
    if !is_valid_entry_name(name.as_str()) {
        return Err("output_file must be a file name only, no path separators".to_owned());
    }
    if sources.len() == 0 {
        return Err("No Verilog sources (.v or .sv) found under this folder.".to_owned());
    }
    Ok(name)
}

} // verus!
