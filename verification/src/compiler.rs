//! Lowering of a parsed file into the portable document, and the whole
//! compilation from source text.

use crate::ast::{File, Item, Section, SpecFile, SpecItem, SpecSection};
use crate::diagnostic::{diagnostics_view, Diagnostics, SpecDiagnostic};
use crate::parser::{parse, spec_parse};
use crate::schema::{choice_docs_view, texts_view, ChoiceDoc, SpecChoiceDoc, SpecNodeDoc, SpecStoryDoc, StoryDoc, StoryNodeDoc, SCHEMA_URL, SCHEMA_VERSION};
use vstd::prelude::*;
use vstd::string::*;

verus! {

/// The texts of the narration lines among the first `n` items, in order.
pub open spec fn lines_of(items: Seq<SpecItem>, n: int) -> Seq<Seq<char>>
    decreases n,
{
    if n <= 0 {
        Seq::empty()
    } else {
        match items[n - 1] {
            SpecItem::Line(l) => lines_of(items, n - 1).push(l.text),
            _ => lines_of(items, n - 1),
        }
    }
}

/// The choices among the first `n` items, in order.
pub open spec fn choices_of(items: Seq<SpecItem>, n: int) -> Seq<SpecChoiceDoc>
    decreases n,
{
    if n <= 0 {
        Seq::empty()
    } else {
        match items[n - 1] {
            SpecItem::Choice(c) => choices_of(items, n - 1).push(
                SpecChoiceDoc { text: c.text, condition: c.condition, target: c.target },
            ),
            _ => choices_of(items, n - 1),
        }
    }
}

/// The target of the first divert among the first `n` items.
pub open spec fn first_divert(items: Seq<SpecItem>, n: int) -> Option<Seq<char>>
    decreases n,
{
    if n <= 0 {
        None
    } else {
        match first_divert(items, n - 1) {
            Some(target) => Some(target),
            None => match items[n - 1] {
                SpecItem::Divert(d) => Some(d.target),
                _ => None,
            },
        }
    }
}

/// The node that a section becomes: its name is the id, its lines and
/// choices keep their order, its first divert is the node's divert.
/// Statements leave no trace.
pub open spec fn lower_section(section: SpecSection) -> SpecNodeDoc {
    let n = section.items.len() as int;
    SpecNodeDoc {
        id: section.name,
        lines: lines_of(section.items, n),
        choices: choices_of(section.items, n),
        divert: first_divert(section.items, n),
    }
}

/// The document that a file becomes: one node per section, in order; the
/// entry is `start`, and no variable is declared.
pub open spec fn lower_file(file: SpecFile) -> SpecStoryDoc {
    StoryDoc::spec_with_nodes("start"@, Seq::new(file.sections.len(), |i: int| lower_section(file.sections[i])))
}

fn clone_opt(text: &Option<String>) -> (r: Option<String>)
    ensures
        r == *text,
{
    match text {
        Some(t) => Some(t.clone()),
        None => None,
    }
}

/// Lowers one section into its node.
pub fn lower_node(section: &Section) -> (r: StoryNodeDoc)
    ensures
        r@ == lower_section(section@),
{
    let mut lines: Vec<String> = Vec::new();
    let mut choices: Vec<ChoiceDoc> = Vec::new();
    let mut divert: Option<String> = None;
    let ghost items = section@.items;
    let mut k: usize = 0;
    proof {
        assert(texts_view(lines@) =~= lines_of(items, 0));
        assert(choice_docs_view(choices@) =~= choices_of(items, 0));
    }
    while k < section.items.len()
        invariant
            items == section@.items,
            0 <= k <= section.items.len(),
            texts_view(lines@) == lines_of(items, k as int),
            choice_docs_view(choices@) == choices_of(items, k as int),
            (match divert {
                Some(d) => Some(d@),
                None => None,
            }) == first_divert(items, k as int),
        decreases section.items.len() - k,
    {
        let ghost lines_before = texts_view(lines@);
        let ghost choices_before = choice_docs_view(choices@);
        assert(items[k as int] == section.items@[k as int]@);
        match &section.items[k] {
            Item::Line(l) => {
                lines.push(l.text.clone());
                proof {
                    assert(texts_view(lines@) =~= lines_before.push(l.text@));
                }
            },
            Item::Choice(c) => {
                let choice = ChoiceDoc {
                    text: c.text.clone(),
                    condition: clone_opt(&c.condition),
                    target: c.target.clone(),
                };
                choices.push(choice);
                proof {
                    assert(choice_docs_view(choices@) =~= choices_before.push(choice@));
                }
            },
            Item::Divert(d) => {
                if divert.is_none() {
                    divert = Some(d.target.clone());
                }
            },
            Item::Stmt(_) => {},
        }
        k = k + 1;
    }
    StoryNodeDoc { id: section.name.clone(), lines, choices, divert }
}

/// Lowers a parsed file into a document.
pub fn lower(file: &File) -> (r: StoryDoc)
    ensures
        r@ == lower_file(file@),
{
    let mut nodes: Vec<StoryNodeDoc> = Vec::new();
    let mut k: usize = 0;
    while k < file.sections.len()
        invariant
            0 <= k <= file.sections.len(),
            nodes.len() == k,
            forall|i: int| 0 <= i < k ==> (#[trigger] nodes[i])@ == lower_section(file.sections[i]@),
        decreases file.sections.len() - k,
    {
        nodes.push(lower_node(&file.sections[k]));
        k = k + 1;
    }
    let r = StoryDoc {
        schema_version: String::from_str(SCHEMA_VERSION),
        schema_url: String::from_str(SCHEMA_URL),
        entry: String::from_str("start"),
        variables: Vec::new(),
        nodes,
    };
    proof {
        assert(r@.variables =~= Seq::empty());
        assert(r@.nodes =~= lower_file(file@).nodes);
    }
    r
}

/// What compiling a source text gives: the document that its parsed file
/// lowers to, or the diagnostics of lexing and parsing.
pub open spec fn spec_compile(src: Seq<char>) -> Result<SpecStoryDoc, Seq<SpecDiagnostic>> {
    match spec_parse(src) {
        Ok(file) => Ok(lower_file(file)),
        Err(diags) => Err(diags),
    }
}

/// Whether `r` is what compiling `src` gives.
pub open spec fn compiles_to(src: Seq<char>, r: Result<StoryDoc, Diagnostics>) -> bool {
    match r {
        Ok(doc) => spec_compile(src) == Ok::<SpecStoryDoc, Seq<SpecDiagnostic>>(doc@),
        Err(diags) => spec_compile(src) == Err::<SpecStoryDoc, Seq<SpecDiagnostic>>(diagnostics_view(diags@)),
    }
}

/// Compiles a source text into a document. It fails, with every diagnostic
/// and no document, exactly where lexing or parsing reports one.
pub fn compile_to_document(source: &str) -> (r: Result<StoryDoc, Diagnostics>)
    ensures
        compiles_to(source@, r),
{
    match parse(source) {
        Ok(file) => Ok(lower(&file)),
        Err(diags) => Err(diags),
    }
}

/// Compilation is a function of the source text: two compilations of one
/// text either both fail, with the same diagnostics, or give documents that
/// are equal field by field.
pub proof fn lemma_compile_deterministic(
    src: Seq<char>,
    first: Result<StoryDoc, Diagnostics>,
    second: Result<StoryDoc, Diagnostics>,
)
    requires
        compiles_to(src, first),
        compiles_to(src, second),
    ensures
        match (first, second) {
            (Ok(a), Ok(b)) => a@ == b@,
            (Err(a), Err(b)) => diagnostics_view(a@) == diagnostics_view(b@),
            _ => false,
        },
{
}

/// `std::io::Error`, carried as it is. Its content is not seen.
#[verifier::external_type_specification]
#[verifier::external_body]
pub struct ExIoError(std::io::Error);

/// What can go wrong around a compilation, besides the diagnostics of the
/// source itself.
#[derive(Debug)]
pub enum CompileError {
    Io(std::io::Error),
    Internal(String),
}

/// `std::io::Error` printed by its `Display`. The text depends on the
/// platform, so nothing is stated of it.
#[verifier::external_body]
fn io_error_text(e: &std::io::Error) -> (r: String) {
    format!("{}", e)
}

impl CompileError {
    /// The error on one line, for a reader.
    pub fn describe(&self) -> (r: String)
        ensures
            match *self {
                CompileError::Io(_) => exists|detail: Seq<char>| r@ == "io error: "@ + detail,
                CompileError::Internal(message) => r@ == "internal: "@ + message@,
            },
    {
        match self {
            CompileError::Io(e) => {
                let detail = io_error_text(e);
                let mut r = String::from_str("io error: ");
                r.append(detail.as_str());
                r
            },
            CompileError::Internal(message) => {
                let mut r = String::from_str("internal: ");
                r.append(message.as_str());
                r
            },
        }
    }
}

} // verus!
