//! The commands of the debugger front end: what they decide, and the values that they take
//! and give.
use crate::ir::{IrModule, IrProject};
use crate::number::{pad_zeros, radix_text, u64_text};
use crate::project::find_top_module;
use crate::sim_session::{
    DriverQueryResult, SimConfig, SimRunner, SimSession, StepMode, StepOutcome,
};
use crate::source_map::{FileId, InfoM, Span, SpanInfo};
use crate::statement::{find_assign_stmt_for_lhs, rhs_expr_span, ternary_sub_spans};
use crate::text::{chars_of, concat_str, str_eq};
use crate::SourceFile;
use vstd::prelude::*;

verus! {

#[derive(Debug, Clone, PartialEq, Eq)]
pub struct SourceFileEntry {
    pub id: u16,
    pub path: String,
}

#[derive(Debug)]
pub struct SimStartResult {
    pub session_id: u64,
    pub vcd_path: String,
    pub source_files: Vec<SourceFileEntry>,
    pub time_fs: u64,
}

/// A source range that is active, with its lines and columns.
#[derive(Debug, Clone, PartialEq, Eq)]
pub struct ActiveSpan {
    pub file_id: u16,
    pub path: String,
    pub start: u32,
    pub end: u32,
    pub line_start: u32,
    pub col_start: u32,
    pub line_end: u32,
    pub col_end: u32,
}

#[derive(Debug)]
pub struct StepResult {
    pub time_fs: u64,
    pub active_spans: Vec<ActiveSpan>,
    pub ran_statements: usize,
    pub done: bool,
}

/// The value of a signal in three notations; the value before where it is being written.
#[derive(Debug, Clone, PartialEq, Eq)]
pub struct EvalResult {
    pub decimal: String,
    pub hex: String,
    pub binary: String,
    pub width: usize,
    pub resolved_name: String,
    /// The signal is written at exactly the time asked for.
    pub transitioning: bool,
    pub prev_decimal: Option<String>,
    pub prev_hex: Option<String>,
    pub prev_binary: Option<String>,
}

#[derive(Debug)]
pub struct SimStartArgs {
    pub project_root: String,
    pub top_module: Option<String>,
    pub num_cycles: Option<usize>,
    pub vcd_filename: Option<String>,
}

#[derive(Debug)]
pub struct SimEvalArgs {
    pub session_id: u64,
    pub identifier: String,
    pub file_path: Option<String>,
    pub time_fs: Option<u64>,
    pub byte_pos: Option<u32>,
}

/// Where a signal is driven: the statement, the chosen arm or the operand, the condition.
#[derive(Debug, Clone, PartialEq, Eq)]
pub struct DriverAtResult {
    pub resolved_signal: String,
    pub file_id: u16,
    pub path: String,
    pub stmt_start: u32,
    pub stmt_end: u32,
    pub branch_start: Option<u32>,
    pub branch_end: Option<u32>,
    pub cond_start: Option<u32>,
    pub cond_end: Option<u32>,
}

/// The step mode that a word stands for.
pub open spec fn mode_of(raw: Seq<char>) -> Option<StepMode> {
    if raw == "statement"@ || raw == "OneStatement"@ {
        Some(StepMode::OneStatement)
    } else if raw == "tick"@ || raw == "OneTick"@ {
        Some(StepMode::OneTick)
    } else if raw == "cycle"@ || raw == "OneCycle"@ {
        Some(StepMode::OneCycle)
    } else if raw == "run"@ || raw == "ToEnd"@ {
        Some(StepMode::ToEnd)
    } else {
        None
    }
}

/// Reads a step mode.
pub fn parse_mode(raw: &str) -> (r: Result<StepMode, String>)
    ensures
        match mode_of(raw@) {
            Some(m) => r == Ok::<StepMode, String>(m),
            None => r matches Err(e) && e@ == "unknown step mode: "@ + raw@,
        },
{
    if str_eq(raw, "statement") || str_eq(raw, "OneStatement") {
        Ok(StepMode::OneStatement)
    } else if str_eq(raw, "tick") || str_eq(raw, "OneTick") {
        Ok(StepMode::OneTick)
    } else if str_eq(raw, "cycle") || str_eq(raw, "OneCycle") {
        Ok(StepMode::OneCycle)
    } else if str_eq(raw, "run") || str_eq(raw, "ToEnd") {
        Ok(StepMode::ToEnd)
    } else {
        Err(concat_str("unknown step mode: ", raw))
    }
}

/// The text is a file name and no path.
pub open spec fn is_plain_name(s: Seq<char>) -> bool {
    !s.contains('/') && !s.contains('\\')
}

/// Whether a text is a file name and no path.
pub fn is_file_name(s: &str) -> (r: bool)
    ensures
        r == is_plain_name(s@),
{
    let chars = chars_of(s);
    let mut i: usize = 0;
    while i < chars.len()
        invariant
            i <= chars@.len(),
            chars@ == s@,
            forall|j: int| 0 <= j < i ==> #[trigger] chars@[j] != '/' && chars@[j] != '\\',
        decreases chars@.len() - i,
    {
        if chars[i] == '/' || chars[i] == '\\' {
            assert(s@[i as int] == chars@[i as int]);
            return false;
        }
        i = i + 1;
    }
    true
}

/// The top module that a session is started on.
pub open spec fn chosen_top(ms: Seq<IrModule>, asked: Option<Seq<char>>) -> Option<Seq<char>> {
    match asked {
        Some(t) => Some(t),
        None => crate::project::top_among(
            ms,
            crate::project::having(ms, ms, crate::project::Trait::Root),
        ),
    }
}

/// Decides what a session is started with: the configuration, and the name of the waveform
/// file. The top module is looked for where none is asked for; a run has 64 cycles and the
/// file is called `debug.vcd` where nothing else is said.
pub fn start_plan(
    project: &IrProject,
    top_module: Option<&str>,
    num_cycles: Option<usize>,
    vcd_filename: Option<&str>,
) -> (r: Result<(SimConfig, String), String>)
    ensures
        ({
            let top = chosen_top(
                project.modules@,
                crate::sim_session::text_of(top_module),
            );
            let file = match vcd_filename {
                Some(f) => f@,
                None => "debug.vcd"@,
            };
            match r {
                Ok((config, name)) => {
                    &&& top == Some(config.top_module@)
                    &&& config.num_cycles == match num_cycles {
                        Some(n) => n,
                        None => 64usize,
                    }
                    &&& config.is_plain()
                    &&& name@ == file
                    &&& is_plain_name(file)
                },
                Err(e) => if top is None {
                    e@ == "no modules found in project"@
                } else {
                    !is_plain_name(file) && e@ == "vcdFilename must be a file name only"@
                },
            }
        }),
{
    let top = match top_module {
        Some(t) => t.to_owned(),
        None => match find_top_module(project) {
            Ok(t) => t,
            Err(e) => {
                return Err(e);
            },
        },
    };
    let cycles: usize = match num_cycles {
        Some(n) => n,
        None => 64,
    };
    let name = match vcd_filename {
        Some(f) => f.to_owned(),
        None => "debug.vcd".to_owned(),
    };
    if !is_file_name(name.as_str()) {
        return Err("vcdFilename must be a file name only".to_owned());
    }
    let mut config = SimConfig::default();
    config.top_module = top;
    config.num_cycles = cycles;
    Ok((config, name))
}

impl ActiveSpan {
    pub open spec fn view(&self) -> InfoM {
        InfoM {
            file_id: self.file_id,
            path: self.path@,
            start: self.start,
            end: self.end,
            from: crate::source_map::LineCol { line: self.line_start, col: self.col_start },
            to: crate::source_map::LineCol { line: self.line_end, col: self.col_end },
        }
    }
}

pub open spec fn active_view(s: Seq<ActiveSpan>) -> Seq<InfoM> {
    Seq::new(s.len(), |i: int| s[i]@)
}

pub fn to_active_span(info: &SpanInfo) -> (r: ActiveSpan)
    ensures
        r@ == info@,
{
    ActiveSpan {
        file_id: info.file_id,
        path: info.path.clone(),
        start: info.start,
        end: info.end,
        line_start: info.line_start,
        col_start: info.col_start,
        line_end: info.line_end,
        col_end: info.col_end,
    }
}

/// The spans active at a time, as the front end takes them.
pub fn collect_active<R: SimRunner>(
    session: &SimSession<R>,
    project: &IrProject,
    t_fs: u64,
) -> (r: Vec<ActiveSpan>)
    ensures
        active_view(r@) == crate::sim_session::known_infos(
            project.source_map@,
            crate::sim_session::active_spans(session.run().spec_trace(), t_fs),
        ),
{
    let infos = session.active_span_infos_at(project, t_fs);
    let mut out: Vec<ActiveSpan> = Vec::new();
    let mut i: usize = 0;
    while i < infos.len()
        invariant
            i <= infos@.len(),
            out@.len() == i,
            forall|j: int| 0 <= j < i ==> (#[trigger] out@[j])@ == infos@[j]@,
        decreases infos@.len() - i,
    {
        out.push(to_active_span(&infos[i]));
        i = i + 1;
    }
    assert(active_view(out@) =~= crate::sim_session::infos_view(infos@));
    out
}

/// What a step reports: the time reached, the spans active there, and what was done.
pub fn step_result<R: SimRunner>(
    session: &SimSession<R>,
    project: &IrProject,
    outcome: StepOutcome,
) -> (r: StepResult)
    ensures
        r.time_fs == session.run().spec_time(),
        active_view(r.active_spans@) == crate::sim_session::known_infos(
            project.source_map@,
            crate::sim_session::active_spans(
                session.run().spec_trace(),
                session.run().spec_time(),
            ),
        ),
        r.done == (outcome is End),
        r.ran_statements == match outcome {
            StepOutcome::Advanced { ran_statements, .. } => ran_statements,
            StepOutcome::End => 0,
        },
{
    let time_fs = session.current_time_fs();
    let active_spans = collect_active(session, project, time_fs);
    let (ran_statements, done) = match outcome {
        StepOutcome::Advanced { ran_statements, .. } => (ran_statements, false),
        StepOutcome::End => (0, true),
    };
    StepResult { time_fs, active_spans, ran_statements, done }
}

/// The names that an identifier of the source may have: as it stands, in the top module,
/// and in each module of the file that it stands in.
pub open spec fn candidate_names(
    ms: Seq<IrModule>,
    top: Seq<char>,
    identifier: Seq<char>,
    file: Option<Seq<char>>,
) -> Seq<Seq<char>>
    decreases ms.len(),
{
    if ms.len() == 0 {
        seq![identifier, top + "."@ + identifier]
    } else {
        let before = candidate_names(ms.drop_last(), top, identifier, file);
        if file == Some(ms.last().path@) {
            before.push(ms.last().name@ + "."@ + identifier)
        } else {
            before
        }
    }
}

fn dotted(scope: &str, name: &str) -> (r: String)
    ensures
        r@ == scope@ + "."@ + name@,
{
    let head = concat_str(scope, ".");
    concat_str(head.as_str(), name)
}

/// Lists the names that an identifier may have.
pub fn candidates(
    modules: &Vec<IrModule>,
    top: &str,
    identifier: &str,
    file_path: Option<&str>,
) -> (r: Vec<String>)
    ensures
        crate::parser::cst::names_view(r@) == candidate_names(
            modules@,
            top@,
            identifier@,
            crate::sim_session::text_of(file_path),
        ),
{
    let ghost file = crate::sim_session::text_of(file_path);
    let mut out: Vec<String> = Vec::new();
    out.push(identifier.to_owned());
    out.push(dotted(top, identifier));
    assert(crate::parser::cst::names_view(out@) =~= seq![identifier@, top@ + "."@ + identifier@]);
    let mut i: usize = 0;
    while i < modules.len()
        invariant
            i <= modules@.len(),
            file == crate::sim_session::text_of(file_path),
            crate::parser::cst::names_view(out@) == candidate_names(
                modules@.take(i as int),
                top@,
                identifier@,
                file,
            ),
        decreases modules@.len() - i,
    {
        let ghost before = crate::parser::cst::names_view(out@);
        assert(modules@.take(i + 1).drop_last() == modules@.take(i as int));
        assert(modules@.take(i + 1).last() == modules@[i as int]);
        if let Some(path) = file_path {
            if str_eq(modules[i].path.as_str(), path) {
                let name = dotted(modules[i].name.as_str(), identifier);
                out.push(name);
                assert(crate::parser::cst::names_view(out@) =~= before.push(name@));
            }
        }
        i = i + 1;
    }
    assert(modules@.take(i as int) == modules@);
    out
}

/// The value of a signal as an unsigned number of its width; of 64 bits where the width is
/// zero or more than 62.
pub open spec fn unsigned_of(v: i64, width: usize) -> nat {
    if width == 0 || width >= 63 {
        v as u64 as nat
    } else {
        (v as u64 as nat) % vstd::arithmetic::power2::pow2(width as nat)
    }
}

fn to_unsigned(v: i64, width: usize) -> (r: u64)
    ensures
        r == unsigned_of(v, width),
{
    let u: u64 = v as u64;
    if width == 0 || width >= 63 {
        u
    } else {
        let w: u64 = width as u64;
        proof {
            vstd::arithmetic::power2::lemma_pow2_pos(w as nat);
            vstd::arithmetic::power2::lemma_pow2_strictly_increases(w as nat, 63);
            vstd::arithmetic::power2::lemma2_to64_rest();
            vstd::bits::lemma_u64_shl_is_mul(1, w);
            vstd::bits::lemma_u64_low_bits_mask_is_mod(u, w as nat);
        }
        let mask: u64 = (1u64 << w) - 1;
        assert(mask == vstd::bits::low_bits_mask(w as nat)) by {
            reveal(vstd::bits::low_bits_mask);
        }
        u & mask
    }
}

/// Decimal, hexadecimal and binary text of a value.
pub open spec fn rendered(v: i64, width: usize) -> (Seq<char>, Seq<char>, Seq<char>) {
    let u = unsigned_of(v, width);
    (
        crate::number::decimal_digits(u),
        "0x"@ + crate::number::radix_digits(u, 16),
        "0b"@ + crate::number::zero_padded(
            crate::number::radix_digits(u, 2),
            if width == 0 {
                1
            } else {
                width as nat
            },
        ),
    )
}

/// Writes a value in three notations.
pub fn render(v: i64, width: usize) -> (r: (String, String, String))
    ensures
        (r.0@, r.1@, r.2@) == rendered(v, width),
{
    let u = to_unsigned(v, width);
    let digits = radix_text(u, 2);
    let padded = pad_zeros(
        digits.as_str(),
        if width == 0 {
            1
        } else {
            width
        },
    );
    let hex = radix_text(u, 16);
    (u64_text(u), concat_str("0x", hex.as_str()), concat_str("0b", padded.as_str()))
}

/// Model of [`EvalResult`].
pub ghost struct EvalM {
    pub current: (Seq<char>, Seq<char>, Seq<char>),
    pub width: usize,
    pub name: Seq<char>,
    pub previous: Option<(Seq<char>, Seq<char>, Seq<char>)>,
}

impl EvalResult {
    /// The result says `m`.
    pub open spec fn says(&self, m: EvalM) -> bool {
        &&& (self.decimal@, self.hex@, self.binary@) == m.current
        &&& self.width == m.width
        &&& self.resolved_name@ == m.name
        &&& self.transitioning == (m.previous is Some)
        &&& match m.previous {
            Some(p) => crate::sim_session::string_of(self.prev_decimal) == Some(p.0)
                && crate::sim_session::string_of(self.prev_hex) == Some(p.1)
                && crate::sim_session::string_of(self.prev_binary) == Some(p.2),
            None => self.prev_decimal is None && self.prev_hex is None && self.prev_binary is None,
        }
    }
}

/// The value of one name, at a time or now.
pub open spec fn value_of<R: SimRunner>(run: R, name: Seq<char>, time: Option<u64>) -> Option<
    (i64, usize, Seq<char>),
> {
    match time {
        Some(t) => crate::sim_session::past_value(run, name, t),
        None => crate::sim_session::current_value(run, name),
    }
}

/// What is said of a value: with the value before where it is written at the time.
pub open spec fn evaluated<R: SimRunner>(
    run: R,
    value: (i64, usize, Seq<char>),
    time: Option<u64>,
) -> EvalM {
    let (v, width, name) = value;
    EvalM {
        current: rendered(v, width),
        width,
        name,
        previous: match time {
            None => None,
            Some(t) => match crate::sim_session::signal_transition(run, name, t) {
                Some((from, _)) => Some(rendered(from, width)),
                None => None,
            },
        },
    }
}

/// The value of the first of some names that has one.
pub open spec fn first_value<R: SimRunner>(
    run: R,
    names: Seq<Seq<char>>,
    time: Option<u64>,
) -> Option<EvalM>
    decreases names.len(),
{
    if names.len() == 0 {
        None
    } else {
        match first_value(run, names.drop_last(), time) {
            Some(m) => Some(m),
            None => match value_of(run, names.last(), time) {
                Some(v) => Some(evaluated(run, v, time)),
                None => None,
            },
        }
    }
}

fn evaluate_name<R: SimRunner>(session: &SimSession<R>, name: &str, time_fs: Option<u64>) -> (r:
    Option<EvalResult>)
    ensures
        match value_of(session.run(), name@, time_fs) {
            Some(v) => r matches Some(e) && e.says(evaluated(session.run(), v, time_fs)),
            None => r is None,
        },
{
    let value = match time_fs {
        Some(t) => session.eval_signal_at_or_before(name, t),
        None => session.eval_signal_resolved(name),
    };
    match value {
        None => None,
        Some((v, width, resolved_name)) => {
            let (decimal, hex, binary) = render(v, width);
            let transition = match time_fs {
                Some(t) => session.transition_info_at(resolved_name.as_str(), t),
                None => None,
            };
            let mut previous: Option<(String, String, String)> = None;
            if let Some((from, _to)) = transition {
                previous = Some(render(from, width));
            }
            match previous {
                Some((d, h, b)) => Some(
                    EvalResult {
                        decimal,
                        hex,
                        binary,
                        width,
                        resolved_name,
                        transitioning: true,
                        prev_decimal: Some(d),
                        prev_hex: Some(h),
                        prev_binary: Some(b),
                    },
                ),
                None => Some(
                    EvalResult {
                        decimal,
                        hex,
                        binary,
                        width,
                        resolved_name,
                        transitioning: false,
                        prev_decimal: None,
                        prev_hex: None,
                        prev_binary: None,
                    },
                ),
            }
        },
    }
}

/// Evaluates an identifier of the source, now or at a time. Where none of its names is
/// known, the error lists those that were tried.
pub fn eval_identifier<R: SimRunner>(
    session: &SimSession<R>,
    project: &IrProject,
    identifier: &str,
    file_path: Option<&str>,
    time_fs: Option<u64>,
) -> (r: Result<EvalResult, Vec<String>>)
    ensures
        ({
            let names = candidate_names(
                project.modules@,
                session.spec_config().top_module@,
                identifier@,
                crate::sim_session::text_of(file_path),
            );
            match first_value(session.run(), names, time_fs) {
                Some(m) => r matches Ok(e) && e.says(m),
                None => r matches Err(tried) && crate::parser::cst::names_view(tried@) == names,
            }
        }),
{
    let names = candidates(
        &project.modules,
        session.config().top_module.as_str(),
        identifier,
        file_path,
    );
    let ghost model = crate::parser::cst::names_view(names@);
    let mut i: usize = 0;
    while i < names.len()
        invariant
            i <= names@.len(),
            model == crate::parser::cst::names_view(names@),
            model == candidate_names(
                project.modules@,
                session.spec_config().top_module@,
                identifier@,
                crate::sim_session::text_of(file_path),
            ),
            first_value(session.run(), model.take(i as int), time_fs) is None,
        decreases names@.len() - i,
    {
        assert(model.take(i + 1).drop_last() == model.take(i as int));
        assert(model.take(i + 1).last() == names@[i as int]@);
        if let Some(e) = evaluate_name(session, names[i].as_str(), time_fs) {
            proof {
                lemma_first_value(session.run(), model, i + 1, time_fs);
            }
            return Ok(e);
        }
        i = i + 1;
    }
    assert(model.take(i as int) == model);
    Err(names)
}

proof fn lemma_first_value<R: SimRunner>(
    run: R,
    names: Seq<Seq<char>>,
    k: int,
    time: Option<u64>,
)
    requires
        0 <= k <= names.len(),
        first_value(run, names.take(k), time) is Some,
    ensures
        first_value(run, names, time) == first_value(run, names.take(k), time),
    decreases names.len(),
{
    if k == names.len() {
        assert(names.take(k) == names);
    } else {
        assert(names.drop_last().take(k) == names.take(k));
        lemma_first_value(run, names.drop_last(), k, time);
    }
}

/// Model of [`DriverAtResult`].
pub ghost struct DriverAtM {
    pub signal: Seq<char>,
    pub path: Seq<char>,
    pub file_id: FileId,
    pub stmt: (u32, u32),
    pub branch: Option<(int, int)>,
    pub cond: Option<(int, int)>,
}

impl DriverAtResult {
    /// The result says `m`.
    pub open spec fn says(&self, m: DriverAtM) -> bool {
        &&& self.resolved_signal@ == m.signal
        &&& self.path@ == m.path
        &&& self.file_id == m.file_id
        &&& (self.stmt_start, self.stmt_end) == m.stmt
        &&& match m.branch {
            Some((a, b)) => self.branch_start == Some(a as u32) && self.branch_end == Some(
                b as u32,
            ),
            None => self.branch_start is None && self.branch_end is None,
        }
        &&& match m.cond {
            Some((a, b)) => self.cond_start == Some(a as u32) && self.cond_end == Some(b as u32),
            None => self.cond_start is None && self.cond_end is None,
        }
    }
}

/// The statement that is shown: the first line that plainly assigns to the signal, else the
/// statement found.
pub open spec fn shown_statement(d: crate::sim_session::DriverM, text: Seq<u8>) -> (u32, u32) {
    match crate::statement::assign_line(
        text,
        0,
        vstd::utf8::encode_utf8(crate::signal_names::leaf_of(d.signal)),
    ) {
        Some((a, b)) => (a as u32, b as u32),
        None => (d.span.start, d.span.end),
    }
}

/// What is shown of a driver: the condition and the chosen arm of a conditional, else the
/// right-hand side, else the operand that is written; nothing that is not inside the
/// statement.
pub open spec fn shown_driver<R: SimRunner>(
    run: R,
    d: crate::sim_session::DriverM,
    text: Seq<u8>,
    signal: Seq<char>,
    t: u64,
) -> DriverAtM {
    let stmt = shown_statement(d, text);
    let (cond, arm) = match d.branch {
        Some(choice) => crate::statement::conditional_parts(text, stmt.0, stmt.1, choice),
        None => (None, None),
    };
    let side = if arm is None && d.branch is None {
        crate::statement::right_side(text, stmt.0, stmt.1)
    } else {
        arm
    };
    let part = if side is None {
        crate::sim_session::driving_token(
            run,
            signal,
            t,
            Span { file_id: d.span.file_id, start: stmt.0, end: stmt.1 },
            Some(text),
        )
    } else {
        side
    };
    DriverAtM {
        signal: d.signal,
        path: d.path,
        file_id: d.span.file_id,
        stmt,
        branch: match part {
            Some((a, b)) => if stmt.0 <= a as u32 && (b as u32) <= stmt.1 && (a as u32) < (b as u32) {
                part
            } else {
                None
            },
            None => None,
        },
        cond,
    }
}

/// Why a driver is not shown.
#[derive(Debug, Clone, Copy, PartialEq, Eq, Structural)]
pub enum DriverError {
    /// No statement is known to drive the signal.
    Unresolved,
    /// The source of the statement could not be read.
    Unreadable,
}

fn driver_view<R: SimRunner>(
    session: &SimSession<R>,
    d: DriverQueryResult,
    text: &[u8],
    signal: &str,
    t_fs: u64,
) -> (r: DriverAtResult)
    ensures
        r.says(shown_driver(session.run(), d@, text@, signal@, t_fs)),
{
    let (_scope, leaf) = crate::signal_names::split_scope(d.resolved_signal.as_str());
    let (stmt_start, stmt_end) = match find_assign_stmt_for_lhs(text, leaf.as_str().as_bytes()) {
        Some(range) => range,
        None => (d.stmt_span.start, d.stmt_span.end),
    };
    let (cond, arm) = match d.branch {
        Some(choice) => ternary_sub_spans(text, stmt_start, stmt_end, choice),
        None => (None, None),
    };
    let mut part: Option<(u32, u32)> = arm;
    if part.is_none() && d.branch.is_none() {
        part = rhs_expr_span(text, stmt_start, stmt_end);
    }
    if part.is_none() {
        let span = Span::new(d.stmt_span.file_id, stmt_start, stmt_end);
        part = match session.driving_token_span_at(signal, t_fs, span, Some(text)) {
            Some(t) => Some((t.start, t.end)),
            None => None,
        };
    }
    let mut branch_start: Option<u32> = None;
    let mut branch_end: Option<u32> = None;
    if let Some((a, b)) = part {
        if a >= stmt_start && b <= stmt_end && b > a {
            branch_start = Some(a);
            branch_end = Some(b);
        }
    }
    let (cond_start, cond_end) = match cond {
        Some((a, b)) => (Some(a), Some(b)),
        None => (None, None),
    };
    DriverAtResult {
        resolved_signal: d.resolved_signal,
        file_id: d.stmt_span.file_id,
        path: d.path,
        stmt_start,
        stmt_end,
        branch_start,
        branch_end,
        cond_start,
        cond_end,
    }
}

/// Shows the driver of a signal at a time. `sources` are the source texts that could be
/// read.
pub fn driver_shown_at<R: SimRunner>(
    session: &SimSession<R>,
    project: &IrProject,
    sources: &[SourceFile],
    signal: &str,
    t_fs: u64,
) -> (r: Result<DriverAtResult, DriverError>)
    ensures
        match crate::sim_session::driver_of(
            session.run(),
            project.source_map@,
            sources@,
            signal@,
            t_fs,
        ) {
            None => r == Err::<DriverAtResult, DriverError>(DriverError::Unresolved),
            Some(d) => match crate::sim_session::source_text(sources@, d.path) {
                None => r == Err::<DriverAtResult, DriverError>(DriverError::Unreadable),
                Some(text) => r matches Ok(v) && v.says(
                    shown_driver(session.run(), d, text, signal@, t_fs),
                ),
            },
        },
{
    match session.driver_at(project, sources, signal, t_fs) {
        None => Err(DriverError::Unresolved),
        Some(d) => match crate::sim_session::find_text(sources, d.path.as_str()) {
            None => Err(DriverError::Unreadable),
            Some(text) => Ok(driver_view(session, d, text, signal, t_fs)),
        },
    }
}

/// A part of a driver that is shown lies inside the statement that is shown.
pub proof fn law_shown_part_is_inside<R: SimRunner>(
    run: R,
    d: crate::sim_session::DriverM,
    text: Seq<u8>,
    signal: Seq<char>,
    t: u64,
)
    ensures
        ({
            let m = shown_driver(run, d, text, signal, t);
            m.branch matches Some((a, b)) ==> m.stmt.0 <= a as u32 && (a as u32) < (b as u32) && (
            b as u32) <= m.stmt.1
        }),
{
}

} // verus!
