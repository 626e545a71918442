//! The portable document that the compiler emits: a versioned story with an
//! entry node, declared variables and nodes.

use vstd::prelude::*;
use vstd::string::*;

verus! {

/// The version of the document format.
pub const SCHEMA_VERSION: &'static str = "1.0.0";

/// The identifier of the document format.
pub const SCHEMA_URL: &'static str = "https://example.com/schemas/skroll-story-1.0.0.json";

/// A compiled story.
#[derive(Debug, Clone)]
pub struct StoryDoc {
    pub schema_version: String,
    pub schema_url: String,
    pub entry: String,
    /// The declared variables, by name, in their order.
    pub variables: Vec<(String, ValueDoc)>,
    pub nodes: Vec<StoryNodeDoc>,
}

/// The value of a declared variable.
#[derive(Debug, Clone)]
pub enum ValueDoc {
    Bool(bool),
    Int(i64),
    Str(String),
}

/// A node of a compiled story: its narration lines, its choices, and the
/// node it diverts to where it has a divert.
#[derive(Debug, Clone, Default)]
pub struct StoryNodeDoc {
    pub id: String,
    pub lines: Vec<String>,
    pub choices: Vec<ChoiceDoc>,
    pub divert: Option<String>,
}

/// A choice of a compiled node.
#[derive(Debug, Clone, Default)]
pub struct ChoiceDoc {
    pub text: String,
    pub condition: Option<String>,
    pub target: String,
}

/// A `ValueDoc` with its text as a character sequence.
pub enum SpecValueDoc {
    Bool(bool),
    Int(i64),
    Str(Seq<char>),
}

/// A `ChoiceDoc` with its texts as character sequences.
pub struct SpecChoiceDoc {
    pub text: Seq<char>,
    pub condition: Option<Seq<char>>,
    pub target: Seq<char>,
}

/// A `StoryNodeDoc` over the views of its parts.
pub struct SpecNodeDoc {
    pub id: Seq<char>,
    pub lines: Seq<Seq<char>>,
    pub choices: Seq<SpecChoiceDoc>,
    pub divert: Option<Seq<char>>,
}

/// A `StoryDoc` over the views of its parts.
pub struct SpecStoryDoc {
    pub schema_version: Seq<char>,
    pub schema_url: Seq<char>,
    pub entry: Seq<char>,
    pub variables: Seq<(Seq<char>, SpecValueDoc)>,
    pub nodes: Seq<SpecNodeDoc>,
}

impl View for ValueDoc {
    type V = SpecValueDoc;

    open spec fn view(&self) -> SpecValueDoc {
        match self {
            ValueDoc::Bool(b) => SpecValueDoc::Bool(*b),
            ValueDoc::Int(n) => SpecValueDoc::Int(*n),
            ValueDoc::Str(s) => SpecValueDoc::Str(s@),
        }
    }
}

impl View for ChoiceDoc {
    type V = SpecChoiceDoc;

    open spec fn view(&self) -> SpecChoiceDoc {
        SpecChoiceDoc {
            text: self.text@,
            condition: match self.condition {
                Some(c) => Some(c@),
                None => None,
            },
            target: self.target@,
        }
    }
}

/// The texts of a list, in order.
pub open spec fn texts_view(texts: Seq<String>) -> Seq<Seq<char>> {
    Seq::new(texts.len(), |i: int| texts[i]@)
}

/// The views of the choices of a list, in order.
pub open spec fn choice_docs_view(choices: Seq<ChoiceDoc>) -> Seq<SpecChoiceDoc> {
    Seq::new(choices.len(), |i: int| choices[i]@)
}

impl View for StoryNodeDoc {
    type V = SpecNodeDoc;

    open spec fn view(&self) -> SpecNodeDoc {
        SpecNodeDoc {
            id: self.id@,
            lines: texts_view(self.lines@),
            choices: choice_docs_view(self.choices@),
            divert: match self.divert {
                Some(d) => Some(d@),
                None => None,
            },
        }
    }
}

/// The views of the nodes of a list, in order.
pub open spec fn node_docs_view(nodes: Seq<StoryNodeDoc>) -> Seq<SpecNodeDoc> {
    Seq::new(nodes.len(), |i: int| nodes[i]@)
}

impl View for StoryDoc {
    type V = SpecStoryDoc;

    open spec fn view(&self) -> SpecStoryDoc {
        SpecStoryDoc {
            schema_version: self.schema_version@,
            schema_url: self.schema_url@,
            entry: self.entry@,
            variables: Seq::new(self.variables@.len(), |i: int| (self.variables@[i].0@, self.variables@[i].1@)),
            nodes: node_docs_view(self.nodes@),
        }
    }
}

impl StoryDoc {
    /// The document of the current format that has `entry` for its entry, no
    /// variables and the given nodes.
    pub open spec fn spec_with_nodes(entry: Seq<char>, nodes: Seq<SpecNodeDoc>) -> SpecStoryDoc {
        SpecStoryDoc {
            schema_version: SCHEMA_VERSION@,
            schema_url: SCHEMA_URL@,
            entry,
            variables: Seq::empty(),
            nodes,
        }
    }

    /// The document without nodes or variables that starts at `entry`.
    pub fn empty_with_entry(entry: String) -> (r: StoryDoc)
        ensures
            r@ == StoryDoc::spec_with_nodes(entry@, Seq::empty()),
    {
        let r = StoryDoc {
            schema_version: String::from_str(SCHEMA_VERSION),
            schema_url: String::from_str(SCHEMA_URL),
            entry,
            variables: Vec::new(),
            nodes: Vec::new(),
        };
        proof {
            assert(r@.variables =~= Seq::empty());
            assert(r@.nodes =~= Seq::empty());
        }
        r
    }
}

} // verus!
