//! Errors and diagnostics of the story engine.

use vstd::prelude::*;
use vstd::string::*;

verus! {

/// `serde_json::Error`, carried as it is. Its content is not seen.
#[verifier::external_type_specification]
#[verifier::external_body]
pub struct ExJsonError(serde_json::Error);

/// What the engine fails with.
#[derive(Debug)]
pub enum StoryError {
    /// A text that is no JSON of the expected shape.
    Json(serde_json::Error),
    InvalidStory { code: &'static str, message: String, path: String },
    Runtime { code: &'static str, message: String },
}

/// `serde_json::Error` printed by its `Display`: the message with the line
/// and column of the error. Nothing is stated of the text.
#[verifier::external_body]
fn json_error_text(e: &serde_json::Error) -> (r: String) {
    format!("{}", e)
}

/// How an invalid story is described.
pub open spec fn spec_invalid_story_text(code: Seq<char>, message: Seq<char>, path: Seq<char>) -> Seq<char> {
    "Invalid story: "@ + message + " (code: "@ + code + ", path: "@ + path + ")"@
}

/// How a runtime error is described.
pub open spec fn spec_runtime_text(code: Seq<char>, message: Seq<char>) -> Seq<char> {
    "Runtime error: "@ + message + " (code: "@ + code + ")"@
}

impl StoryError {
    /// The stable code of the error, where it has one.
    pub fn code(&self) -> (r: Option<&'static str>)
        ensures
            r == match *self {
                StoryError::Json(_) => None,
                StoryError::InvalidStory { code, .. } => Some(code),
                StoryError::Runtime { code, .. } => Some(code),
            },
    {
        match self {
            StoryError::Json(_) => None,
            StoryError::InvalidStory { code, .. } => Some(*code),
            StoryError::Runtime { code, .. } => Some(*code),
        }
    }

    /// The error on one line, for a reader.
    pub fn describe(&self) -> (r: String)
        ensures
            match *self {
                StoryError::Json(_) => exists|detail: Seq<char>| r@ == "JSON error: "@ + detail,
                StoryError::InvalidStory { code, message, path } => r@ == spec_invalid_story_text(
                    code@,
                    message@,
                    path@,
                ),
                StoryError::Runtime { code, message } => r@ == spec_runtime_text(code@, message@),
            },
    {
        match self {
            StoryError::Json(e) => {
                let detail = json_error_text(e);
                let mut r = String::from_str("JSON error: ");
                r.append(detail.as_str());
                r
            },
            StoryError::InvalidStory { code, message, path } => {
                let mut r = String::from_str("Invalid story: ");
                r.append(message.as_str());
                r.append(" (code: ");
                r.append(code);
                r.append(", path: ");
                r.append(path.as_str());
                r.append(")");
                r
            },
            StoryError::Runtime { code, message } => {
                let mut r = String::from_str("Runtime error: ");
                r.append(message.as_str());
                r.append(" (code: ");
                r.append(code);
                r.append(")");
                r
            },
        }
    }
}

/// How grave a validation diagnostic is. Errors block a session, warnings
/// do not.
#[derive(Debug, Clone, Copy, PartialEq, Eq, Structural)]
pub enum DiagnosticLevel {
    Error,
    Warning,
}

/// What validation reports of a story: a level, a stable code, a message,
/// and the path of the offending part of the document.
#[derive(Debug, Clone)]
pub struct Diagnostic {
    pub level: DiagnosticLevel,
    pub code: &'static str,
    pub message: String,
    pub path: String,
}

/// A validation `Diagnostic` with its texts as character sequences.
pub struct SpecStoryDiagnostic {
    pub level: DiagnosticLevel,
    pub code: Seq<char>,
    pub message: Seq<char>,
    pub path: Seq<char>,
}

impl View for Diagnostic {
    type V = SpecStoryDiagnostic;

    open spec fn view(&self) -> SpecStoryDiagnostic {
        SpecStoryDiagnostic { level: self.level, code: self.code@, message: self.message@, path: self.path@ }
    }
}

/// The views of the diagnostics of a list, in order.
pub open spec fn story_diagnostics_view(diags: Seq<Diagnostic>) -> Seq<SpecStoryDiagnostic> {
    Seq::new(diags.len(), |i: int| diags[i]@)
}

impl Diagnostic {
    /// The diagnostic of level error with the given parts.
    pub open spec fn spec_error(code: Seq<char>, path: Seq<char>, msg: Seq<char>) -> SpecStoryDiagnostic {
        SpecStoryDiagnostic { level: DiagnosticLevel::Error, code, message: msg, path }
    }

    /// The diagnostic of level warning with the given parts.
    pub open spec fn spec_warn(code: Seq<char>, path: Seq<char>, msg: Seq<char>) -> SpecStoryDiagnostic {
        SpecStoryDiagnostic { level: DiagnosticLevel::Warning, code, message: msg, path }
    }

    /// An error with the given code, path and message.
    pub fn error(code: &'static str, path: String, msg: String) -> (r: Diagnostic)
        ensures
            r@ == Diagnostic::spec_error(code@, path@, msg@),
    {
        Diagnostic { level: DiagnosticLevel::Error, code, message: msg, path }
    }

    /// A warning with the given code, path and message.
    pub fn warn(code: &'static str, path: String, msg: String) -> (r: Diagnostic)
        ensures
            r@ == Diagnostic::spec_warn(code@, path@, msg@),
    {
        Diagnostic { level: DiagnosticLevel::Warning, code, message: msg, path }
    }
}

} // verus!
