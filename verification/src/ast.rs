//! The tree that the parser builds: a file of sections, each an ordered
//! list of narration lines, choices, diverts and statements.

use crate::span::Span;
use vstd::prelude::*;

verus! {

/// A parsed script: its sections, in order.
#[derive(Debug, Clone)]
pub struct File {
    pub sections: Vec<Section>,
}

/// A named section with its items, in order. `name_span` covers the name,
/// `header_span` the whole header.
#[derive(Debug, Clone)]
pub struct Section {
    pub name: String,
    pub name_span: Span,
    pub header_span: Span,
    pub items: Vec<Item>,
}

/// What a section holds.
#[derive(Debug, Clone)]
pub enum Item {
    Line(Line),
    Choice(Choice),
    Divert(Divert),
    Stmt(Stmt),
}

/// A line of narration.
#[derive(Debug, Clone)]
pub struct Line {
    pub text: String,
    pub span: Span,
}

/// A choice: what it shows, the condition under which it is offered, and
/// the section it leads to.
#[derive(Debug, Clone)]
pub struct Choice {
    pub text: String,
    pub condition: Option<String>,
    pub target: String,
    pub span: Span,
}

/// A jump to another section.
#[derive(Debug, Clone)]
pub struct Divert {
    pub target: String,
    pub span: Span,
}

/// A statement between braces.
#[derive(Debug, Clone)]
pub enum Stmt {
    /// The text between the braces of a statement, kept as written.
    Raw { text: String, span: Span },
}

/// A `Line` with its text as a character sequence.
pub struct SpecLine {
    pub text: Seq<char>,
    pub span: Span,
}

/// A `Choice` with its texts as character sequences.
pub struct SpecChoice {
    pub text: Seq<char>,
    pub condition: Option<Seq<char>>,
    pub target: Seq<char>,
    pub span: Span,
}

/// A `Divert` with its target as a character sequence.
pub struct SpecDivert {
    pub target: Seq<char>,
    pub span: Span,
}

/// A `Stmt` with its text as a character sequence.
pub enum SpecStmt {
    Raw { text: Seq<char>, span: Span },
}

/// An `Item` over the views of its parts.
pub enum SpecItem {
    Line(SpecLine),
    Choice(SpecChoice),
    Divert(SpecDivert),
    Stmt(SpecStmt),
}

/// A `Section` over the views of its parts.
pub struct SpecSection {
    pub name: Seq<char>,
    pub name_span: Span,
    pub header_span: Span,
    pub items: Seq<SpecItem>,
}

/// A `File` over the views of its sections.
pub struct SpecFile {
    pub sections: Seq<SpecSection>,
}

/// The view of an optional text.
pub open spec fn opt_text(s: Option<String>) -> Option<Seq<char>> {
    match s {
        Some(t) => Some(t@),
        None => None,
    }
}

impl View for Line {
    type V = SpecLine;

    open spec fn view(&self) -> SpecLine {
        SpecLine { text: self.text@, span: self.span }
    }
}

impl View for Choice {
    type V = SpecChoice;

    open spec fn view(&self) -> SpecChoice {
        SpecChoice {
            text: self.text@,
            condition: opt_text(self.condition),
            target: self.target@,
            span: self.span,
        }
    }
}

impl View for Divert {
    type V = SpecDivert;

    open spec fn view(&self) -> SpecDivert {
        SpecDivert { target: self.target@, span: self.span }
    }
}

impl View for Stmt {
    type V = SpecStmt;

    open spec fn view(&self) -> SpecStmt {
        match self {
            Stmt::Raw { text, span } => SpecStmt::Raw { text: text@, span: *span },
        }
    }
}

impl View for Item {
    type V = SpecItem;

    open spec fn view(&self) -> SpecItem {
        match self {
            Item::Line(l) => SpecItem::Line(l@),
            Item::Choice(c) => SpecItem::Choice(c@),
            Item::Divert(d) => SpecItem::Divert(d@),
            Item::Stmt(s) => SpecItem::Stmt(s@),
        }
    }
}

/// The views of the items of a list, in order.
pub open spec fn items_view(items: Seq<Item>) -> Seq<SpecItem> {
    Seq::new(items.len(), |i: int| items[i]@)
}

impl View for Section {
    type V = SpecSection;

    open spec fn view(&self) -> SpecSection {
        SpecSection {
            name: self.name@,
            name_span: self.name_span,
            header_span: self.header_span,
            items: items_view(self.items@),
        }
    }
}

/// The views of the sections of a list, in order.
pub open spec fn sections_view(sections: Seq<Section>) -> Seq<SpecSection> {
    Seq::new(sections.len(), |i: int| sections[i]@)
}

impl View for File {
    type V = SpecFile;

    open spec fn view(&self) -> SpecFile {
        SpecFile { sections: sections_view(self.sections@) }
    }
}

impl Default for File {
    /// The file without sections.
    fn default() -> (r: File)
        ensures
            r@.sections == Seq::<SpecSection>::empty(),
    {
        let r = File { sections: Vec::new() };
        proof {
            assert(r@.sections =~= Seq::<SpecSection>::empty());
        }
        r
    }
}

} // verus!
