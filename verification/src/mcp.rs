//! The tools of the protocol server: their arguments and what they compute.
use crate::excerpt::{source_excerpt, Excerpt};
use crate::ir::IrProject;
use crate::project::find_top_module;
use crate::sim_commands::{eval_identifier, parse_mode, EvalM};
use crate::sim_session::{SimRunner, SimSession, StepMode};
use crate::simulate::{source_path_of, output_file_name};
use crate::waves::{change_points, find_edge, parse_edge_kind, query_rows, query_window};
use vstd::prelude::*;

verus! {

#[derive(Debug)]
pub struct EmptyArgs {}

#[derive(Debug)]
pub struct PathArgs {
    /// Absolute path to a file.
    pub path: String,
}

#[derive(Debug)]
pub struct RootArgs {
    /// Absolute path to a project directory containing Verilog sources.
    pub root: String,
}

#[derive(Debug)]
pub struct SimulateVcdArgs {
    pub root: String,
    /// Number of cycles; from the initial delays if omitted.
    pub cycles: Option<usize>,
    /// File name of the waveform, `circuit_scope.vcd` if omitted.
    pub output_file: Option<String>,
}

#[derive(Debug)]
pub struct VcdQueryArgs {
    pub path: String,
    pub signal_ids: Vec<u32>,
    pub t_start: u64,
    pub t_end: u64,
    /// Cap on the rows of a signal.
    pub max_points_per_signal: Option<usize>,
}

#[derive(Debug)]
pub struct VcdFindEdgeArgs {
    pub path: String,
    pub signal_id: u32,
    pub from_time: u64,
    /// Forward from `from_time`, or backward.
    pub next: bool,
    /// `any`, `rising` or `falling`.
    pub edge_kind: String,
    /// Bit of a bus, counted from the least significant one.
    pub bit_lsb: Option<u32>,
}

#[derive(Debug)]
pub struct SimStartArgs {
    pub project_root: String,
    pub top_module: Option<String>,
    pub num_cycles: Option<usize>,
    pub vcd_filename: Option<String>,
}

#[derive(Debug)]
pub struct SimStepArgs {
    pub session_id: u64,
    /// `statement`, `tick`, `cycle` or `run`.
    pub mode: String,
    pub clock_signal: Option<String>,
}

#[derive(Debug)]
pub struct SimQueryActiveArgs {
    pub session_id: u64,
    pub time_fs: u64,
}

#[derive(Debug)]
pub struct SimEvalArgs {
    pub session_id: u64,
    pub identifier: String,
    pub file_path: Option<String>,
    pub time_fs: Option<u64>,
}

#[derive(Debug)]
pub struct SimDriverAtArgs {
    pub session_id: u64,
    pub signal: String,
    pub time_fs: u64,
}

#[derive(Debug)]
pub struct SimEndArgs {
    pub session_id: u64,
    /// The waveform file is kept unless this is `false`.
    pub keep_vcd: Option<bool>,
}

#[derive(Debug)]
pub struct SessionIdArgs {
    pub session_id: u64,
}

#[derive(Debug)]
pub struct SimEvalManyArgs {
    pub session_id: u64,
    pub identifiers: Vec<String>,
    pub file_path: Option<String>,
    pub time_fs: Option<u64>,
}

#[derive(Debug)]
pub struct SourceExcerptArgs {
    pub path: String,
    /// Byte offset of the first character.
    pub start: u32,
    /// Byte offset after the last character.
    pub end: u32,
    /// Lines to show on each side.
    pub context_lines: Option<u32>,
}

/// Reads a step mode.
pub fn parse_step_mode(raw: &str) -> (r: Result<StepMode, String>)
    ensures
        match crate::sim_commands::mode_of(raw@) {
            Some(m) => r == Ok::<StepMode, String>(m),
            None => r matches Err(e) && e@ == "unknown step mode: "@ + raw@,
        },
{
    parse_mode(raw)
}

fn option_str(s: &Option<String>) -> (r: Option<&str>)
    ensures
        crate::sim_session::text_of(r) == crate::sim_session::string_of(*s),
{
    match s {
        Some(x) => Some(x.as_str()),
        None => None,
    }
}

impl SimulateVcdArgs {
    /// The name of the waveform file, for a project with some sources.
    pub fn output_name(&self, sources: &[String]) -> (r: Result<String, String>)
        ensures
            ({
                let name = match self.output_file {
                    Some(f) => f@,
                    None => "circuit_scope.vcd"@,
                };
                match r {
                    Ok(n) => crate::simulate::is_entry_name(name) && sources@.len() > 0 && n@
                        == name,
                    Err(e) => if !crate::simulate::is_entry_name(name) {
                        e@ == "output_file must be a file name only, no path separators"@
                    } else {
                        sources@.len() == 0 && e@
                            == "No Verilog sources (.v or .sv) found under this folder."@
                    },
                }
            }),
    {
        output_file_name(option_str(&self.output_file), sources)
    }
}

impl VcdQueryArgs {
    /// What the query shows of a signal, from its changes and the times that they refer to.
    pub open spec fn shown(&self, changes: Seq<(u32, String)>, times: Seq<u64>) -> Seq<
        (u64, Seq<char>),
    > {
        let (t0, t1) = crate::waves::window_of(times, self.t_start, self.t_end);
        crate::waves::thinned(
            crate::waves::window_rows(crate::waves::timed(changes, times), t0, t1),
            crate::waves::row_cap(self.max_points_per_signal) as nat,
            t0,
            t1,
        )
    }

    /// Rows of one signal.
    pub fn rows(&self, changes: &[(u32, String)], times: &[u64]) -> (r: Vec<(u64, String)>)
        ensures
            crate::waves::points_view(r@) == self.shown(changes@, times@),
    {
        let (t0, t1) = query_window(times, self.t_start, self.t_end);
        let points = change_points(changes, times);
        query_rows(points.as_slice(), t0, t1, self.max_points_per_signal)
    }
}

/// A query shows no more rows of a signal than it asks for, and no more than 65536 where it
/// does not say.
pub proof fn law_query_keeps_to_its_cap(
    args: VcdQueryArgs,
    changes: Seq<(u32, String)>,
    times: Seq<u64>,
)
    ensures
        match args.max_points_per_signal {
            Some(n) => args.shown(changes, times).len() <= n,
            None => args.shown(changes, times).len() <= 65536,
        },
{
    let (t0, t1) = crate::waves::window_of(times, args.t_start, args.t_end);
    crate::waves::law_thinning(
        crate::waves::window_rows(crate::waves::timed(changes, times), t0, t1),
        crate::waves::row_cap(args.max_points_per_signal) as nat,
        t0,
        t1,
    );
}

/// A query shows rows between its two times only, in either order, as far as these are
/// within an ordered time table.
pub proof fn law_query_stays_in_its_window(
    args: VcdQueryArgs,
    changes: Seq<(u32, String)>,
    times: Seq<u64>,
    i: int,
)
    requires
        crate::waves::time_range(times).0 <= crate::waves::time_range(times).1,
        0 <= i < args.shown(changes, times).len(),
    ensures
        ({
            let (t0, t1) = crate::waves::window_of(times, args.t_start, args.t_end);
            t0 <= args.shown(changes, times)[i].0 <= t1
        }),
{
    let (t0, t1) = crate::waves::window_of(times, args.t_start, args.t_end);
    crate::waves::law_window_is_inside(times, args.t_start, args.t_end);
    crate::waves::law_rows_are_in_the_window(
        crate::waves::timed(changes, times),
        crate::waves::row_cap(args.max_points_per_signal) as nat,
        t0,
        t1,
    );
}

impl VcdFindEdgeArgs {
    /// The time of the edge that is looked for.
    pub fn edge(&self, changes: &[(u32, String)], times: &[u64], bits: u32) -> (r: Option<u64>)
        ensures
            ({
                let ps = crate::waves::timed(changes@, times@);
                let kind = crate::waves::edge_kind_of(self.edge_kind@);
                r == if self.next {
                    crate::waves::edge_after(ps, 1, self.from_time, bits, self.bit_lsb, kind)
                } else {
                    crate::waves::edge_before(
                        ps,
                        ps.len() as int,
                        self.from_time,
                        bits,
                        self.bit_lsb,
                        kind,
                    )
                }
            }),
    {
        let kind = parse_edge_kind(self.edge_kind.as_str());
        let points = change_points(changes, times);
        assert(crate::waves::points_view(points@).len() == points@.len());
        find_edge(points.as_slice(), self.from_time, self.next, kind, self.bit_lsb, bits)
    }
}

impl SimEndArgs {
    /// Whether the waveform file is kept.
    pub fn keeps(&self) -> (r: bool)
        ensures
            r == (self.keep_vcd != Some(false)),
    {
        match self.keep_vcd {
            Some(b) => b,
            None => true,
        }
    }
}

impl SourceExcerptArgs {
    /// The asked part of a source text.
    pub fn excerpt(&self, content: &str) -> (r: Result<Excerpt, String>)
        ensures
            match r {
                Ok(e) => crate::excerpt::in_text(content@, self.start, self.end) && e@
                    == crate::excerpt::excerpt_of(
                    content@,
                    self.start,
                    self.end,
                    match self.context_lines {
                        Some(n) => n,
                        None => 0,
                    },
                ),
                Err(m) => !crate::excerpt::in_text(content@, self.start, self.end) && m@
                    == crate::excerpt::out_of_bounds(content@, self.start, self.end),
            },
    {
        source_excerpt(content, self.start, self.end, self.context_lines)
    }
}

/// The top module of a project, with its source path.
pub fn top_with_path(project: &IrProject) -> (r: Result<(String, Option<String>), String>)
    ensures
        match crate::sim_commands::chosen_top(project.modules@, None) {
            Some(top) => r matches Ok(p) && p.0@ == top && crate::sim_session::string_of(p.1)
                == crate::simulate::path_of_module(project.modules@, top),
            None => r matches Err(e) && e@ == "no modules found in project"@,
        },
{
    match find_top_module(project) {
        Ok(name) => {
            let path = source_path_of(project, name.as_str());
            Ok((name, path))
        },
        Err(e) => Err(e),
    }
}

/// The value of a signal in three notations.
#[derive(Debug)]
pub struct WatchValue {
    pub decimal: String,
    pub hex: String,
    pub binary: String,
    pub width: usize,
    pub resolved_name: String,
}

impl WatchValue {
    /// The value is the current one of `m`.
    pub open spec fn says(&self, m: EvalM) -> bool {
        &&& (self.decimal@, self.hex@, self.binary@) == m.current
        &&& self.width == m.width
        &&& self.resolved_name@ == m.name
    }
}

/// A watched identifier has the value that it is evaluated to, or none.
pub open spec fn watched<R: SimRunner>(
    entry: (String, Option<WatchValue>),
    session: SimSession<R>,
    project: IrProject,
    identifier: Seq<char>,
    file_path: Option<Seq<char>>,
    time: Option<u64>,
) -> bool {
    let names = crate::sim_commands::candidate_names(
        project.modules@,
        session.spec_config().top_module@,
        identifier,
        file_path,
    );
    &&& entry.0@ == identifier
    &&& match crate::sim_commands::first_value(session.run(), names, time) {
        Some(m) => entry.1 matches Some(v) && v.says(m),
        None => entry.1 is None,
    }
}

impl SimEvalManyArgs {
    /// Evaluates every identifier, in order.
    pub fn evaluate<R: SimRunner>(&self, session: &SimSession<R>, project: &IrProject) -> (r: Vec<
        (String, Option<WatchValue>),
    >)
        ensures
            r@.len() == self.identifiers@.len(),
            forall|i: int|
                0 <= i < r@.len() ==> #[trigger] watched(
                    r@[i],
                    *session,
                    *project,
                    self.identifiers@[i]@,
                    crate::sim_session::string_of(self.file_path),
                    self.time_fs,
                ),
    {
        let mut out: Vec<(String, Option<WatchValue>)> = Vec::new();
        let mut i: usize = 0;
        while i < self.identifiers.len()
            invariant
                i <= self.identifiers@.len(),
                out@.len() == i,
                forall|j: int|
                    0 <= j < i ==> #[trigger] watched(
                        out@[j],
                        *session,
                        *project,
                        self.identifiers@[j]@,
                        crate::sim_session::string_of(self.file_path),
                        self.time_fs,
                    ),
            decreases self.identifiers@.len() - i,
        {
            let identifier = self.identifiers[i].clone();
            let value = match eval_identifier(
                session,
                project,
                identifier.as_str(),
                option_str(&self.file_path),
                self.time_fs,
            ) {
                Ok(e) => Some(
                    WatchValue {
                        decimal: e.decimal,
                        hex: e.hex,
                        binary: e.binary,
                        width: e.width,
                        resolved_name: e.resolved_name,
                    },
                ),
                Err(_) => None,
            };
            out.push((identifier, value));
            i = i + 1;
        }
        out
    }
}

} // verus!
