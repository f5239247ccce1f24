//! Verilog tooling core: lexing, parsing, IR optimization, semantic indexing,
//! and the query side of a time-synced simulation debugger.
use vstd::prelude::*;

pub mod arith;
pub mod debugger_laws;
pub mod delay_rational;
pub mod excerpt;
pub mod expr_const;
pub mod ir;
pub mod lexer;
pub mod lexer_laws;
pub mod literal_laws;
pub mod mcp;
pub mod number;
pub mod operator_laws;
pub mod optimizer;
pub mod parser;
pub mod paths;
pub mod project;
pub mod project_laws;
pub mod semantic;
pub mod semantic_laws;
pub mod sessions;
pub mod signal_laws;
pub mod signal_names;
pub mod sim_commands;
pub mod sim_session;
pub mod simulate;
pub mod source_map;
pub mod statement;
pub mod statement_laws;
pub mod text;
pub mod text_laws;
pub mod trace;
pub mod wave_laws;
pub mod waves;

verus! {

/// Version of this library.
pub const PACKAGE_VERSION: &'static str = "0.3.0";

/// Environment variable that names the project to scan in place of the working directory.
pub const CIRCUIT_SCOPE_PROJECT_ROOT_VAR: &'static str = "CIRCUIT_SCOPE_PROJECT_ROOT";

#[derive(Debug, Clone, Copy, PartialEq, Eq, Structural)]
pub enum Severity {
    Info,
    Warning,
    Error,
}

/// A source text and the path that it came from.
#[derive(Debug, Clone)]
pub struct SourceFile {
    pub path: String,
    pub content: String,
}

impl SourceFile {
    pub fn new(path: &str, content: &str) -> (r: Self)
        ensures
            r.path@ == path@,
            r.content@ == content@,
    {
        SourceFile { path: path.to_owned(), content: content.to_owned() }
    }
}

#[derive(Debug, Clone, PartialEq, Eq)]
pub struct Diagnostic {
    pub message: String,
    pub severity: Severity,
    pub line: usize,
    pub column: usize,
    pub path: String,
}

/// Model of [`Diagnostic`].
pub ghost struct DiagM {
    pub message: Seq<char>,
    pub severity: Severity,
    pub line: usize,
    pub column: usize,
    pub path: Seq<char>,
}

impl Diagnostic {
    pub open spec fn view(&self) -> DiagM {
        DiagM {
            message: self.message@,
            severity: self.severity,
            line: self.line,
            column: self.column,
            path: self.path@,
        }
    }
}

/// Views of a list of diagnostics.
pub open spec fn diags_view(s: Seq<Diagnostic>) -> Seq<DiagM> {
    Seq::new(s.len(), |i: int| s[i]@)
}

/// A module port; `width` is the packed width in bits.
#[derive(Debug, Clone, PartialEq, Eq)]
pub struct Port {
    pub direction: Option<String>,
    pub name: String,
    pub width: usize,
}

/// A parsed module, without its items.
#[derive(Debug)]
pub struct Module {
    pub name: String,
    pub ports: Vec<Port>,
    pub path: String,
}

/// Model of [`Module`].
pub ghost struct ModuleM {
    pub name: Seq<char>,
    pub ports: Seq<crate::parser::cst::SynPort>,
    pub path: Seq<char>,
}

impl Module {
    pub open spec fn view(&self) -> ModuleM {
        ModuleM {
            name: self.name@,
            ports: crate::parser::cst::ports_view(self.ports@),
            path: self.path@,
        }
    }
}

/// Views of a list of modules.
pub open spec fn module_list(s: Seq<Module>) -> Seq<ModuleM> {
    Seq::new(s.len(), |i: int| s[i]@)
}

#[derive(Debug)]
pub struct ParseResult {
    pub modules: Vec<Module>,
    pub diagnostics: Vec<Diagnostic>,
}

/// What is parsed of a source text with a path.
pub open spec fn source_input(path: Seq<char>, content: Seq<char>) -> crate::parser::state::Input {
    crate::parser::state::Input { toks: crate::lexer::lexed(content), content, path }
}

/// Lexes and parses a source text.
pub fn parse_file(path: &str, content: &str) -> (r: ParseResult)
    ensures
        ({
            let p = crate::parser::module::parsed(source_input(path@, content@));
            &&& module_list(r.modules@) == Seq::new(
                p.0.len(),
                |i: int| crate::parser::module::listed(p.0[i]),
            )
            &&& diags_view(r.diagnostics@) == p.1
        }),
{
    let file = SourceFile::new(path, content);
    let tokens = lexer::lex(&file);
    proof {
        crate::lexer::law_tokens_in_order(content@);
        assert(crate::lexer::tokens_view(tokens@).last() == tokens@.last()@);
    }
    parser::module::parse_file(&file, tokens.as_slice())
}

} // verus!
