//! Diagnostics of the compiler front end: a level, a stable code, a message,
//! an optional span and secondary notes; and their rendering against a source.

use crate::span::{spec_line_col, Source, Span};
use crate::text::{decimal, decimal_spec};
use vstd::prelude::*;
use vstd::string::*;

verus! {

/// How grave a diagnostic is.
#[derive(Debug, Clone, Copy, PartialEq, Eq, Structural)]
pub enum Level {
    Error,
    Warning,
    Note,
}

/// What the front end reports of a source text.
#[derive(Debug, Clone)]
pub struct Diagnostic {
    pub level: Level,
    pub code: &'static str,
    pub message: String,
    pub span: Option<Span>,
    pub notes: Vec<(Option<Span>, String)>,
}

/// What a `Diagnostic` says, with its texts as character sequences.
pub struct SpecDiagnostic {
    pub level: Level,
    pub code: Seq<char>,
    pub message: Seq<char>,
    pub span: Option<Span>,
    pub notes: Seq<(Option<Span>, Seq<char>)>,
}

impl View for Diagnostic {
    type V = SpecDiagnostic;

    open spec fn view(&self) -> SpecDiagnostic {
        SpecDiagnostic {
            level: self.level,
            code: self.code@,
            message: self.message@,
            span: self.span,
            notes: Seq::new(self.notes@.len(), |i: int| (self.notes@[i].0, self.notes@[i].1@)),
        }
    }
}

/// Diagnostics in the order in which they were found.
pub type Diagnostics = Vec<Diagnostic>;

/// The views of the diagnostics of a list, in order.
pub open spec fn diagnostics_view(diags: Seq<Diagnostic>) -> Seq<SpecDiagnostic> {
    Seq::new(diags.len(), |i: int| diags[i]@)
}

impl Diagnostic {
    /// An error-level diagnostic without notes.
    pub open spec fn spec_error(code: Seq<char>, span: Option<Span>, msg: Seq<char>) -> SpecDiagnostic {
        SpecDiagnostic { level: Level::Error, code, message: msg, span, notes: Seq::empty() }
    }

    /// An error with the given code, span and message, and no notes.
    pub fn error(code: &'static str, span: Option<Span>, msg: String) -> (r: Diagnostic)
        ensures
            r@ == Diagnostic::spec_error(code@, span, msg@),
    {
        let r = Diagnostic { level: Level::Error, code, message: msg, span, notes: Vec::new() };
        proof {
            assert(r@.notes =~= Seq::empty());
        }
        r
    }
}

/// The name of a level, as it is printed.
pub open spec fn level_name(level: Level) -> Seq<char> {
    match level {
        Level::Error => "Error"@,
        Level::Warning => "Warning"@,
        Level::Note => "Note"@,
    }
}

/// A diagnostic on one line: `Level [code]: message`, followed by
/// ` at line:column` of the start of its span where it has one.
pub open spec fn spec_format_with_source(diag: SpecDiagnostic, text: Seq<char>) -> Seq<char> {
    let head = level_name(diag.level) + " ["@ + diag.code + "]: "@ + diag.message;
    match diag.span {
        Some(span) => {
            let (line, column) = spec_line_col(text, span.start);
            head + " at "@ + decimal_spec(line as nat) + ":"@ + decimal_spec(column as nat)
        },
        None => head,
    }
}

/// Renders a diagnostic on one line, with the line and column at which its
/// span starts in `src`.
pub fn format_with_source(diag: &Diagnostic, src: &Source) -> (s: String)
    requires
        diag.span matches Some(sp) ==> sp.start < usize::MAX,
    ensures
        s@ == spec_format_with_source(diag@, src@),
{
    let mut s = String::from_str(
        match diag.level {
            Level::Error => "Error",
            Level::Warning => "Warning",
            Level::Note => "Note",
        },
    );
    s.append(" [");
    s.append(diag.code);
    s.append("]: ");
    s.append(diag.message.as_str());
    if let Some(sp) = diag.span {
        let lc = src.line_col(sp.start);
        s.append(" at ");
        s.append(decimal(lc.0).as_str());
        s.append(":");
        s.append(decimal(lc.1).as_str());
    }
    s
}

} // verus!
