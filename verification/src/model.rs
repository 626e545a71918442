//! The story that the engine plays: typed values, the variable mapping,
//! nodes with their choices and entry effects.

use crate::text::same_text;
use vstd::prelude::*;
use vstd::string::*;

verus! {

/// A value of a story variable. Numbers are whole.
#[derive(Debug, PartialEq)]
pub enum Value {
    Bool(bool),
    Num(i64),
    Str(String),
}

/// A `Value` with its text as a character sequence.
pub enum SpecValue {
    Bool(bool),
    Num(i64),
    Str(Seq<char>),
}

impl View for Value {
    type V = SpecValue;

    open spec fn view(&self) -> SpecValue {
        match self {
            Value::Bool(b) => SpecValue::Bool(*b),
            Value::Num(n) => SpecValue::Num(*n),
            Value::Str(s) => SpecValue::Str(s@),
        }
    }
}

impl Clone for Value {
    fn clone(&self) -> (r: Value)
        ensures
            r == *self,
    {
        match self {
            Value::Bool(b) => Value::Bool(*b),
            Value::Num(n) => Value::Num(*n),
            Value::Str(s) => Value::Str(s.clone()),
        }
    }
}

impl Value {
    /// The truth value, where the value is one.
    pub fn as_bool(&self) -> (r: Option<bool>)
        ensures
            r == match self@ {
                SpecValue::Bool(b) => Some(b),
                _ => None,
            },
    {
        match self {
            Value::Bool(b) => Some(*b),
            _ => None,
        }
    }

    /// The number, where the value is one.
    pub fn as_num(&self) -> (r: Option<i64>)
        ensures
            r == match self@ {
                SpecValue::Num(n) => Some(n),
                _ => None,
            },
    {
        match self {
            Value::Num(n) => Some(*n),
            _ => None,
        }
    }

    /// The text, where the value is one.
    pub fn as_str(&self) -> (r: Option<&str>)
        ensures
            match self@ {
                SpecValue::Str(s) => r matches Some(t) && t@ == s,
                _ => r is None,
            },
    {
        match self {
            Value::Str(s) => Some(s.as_str()),
            _ => None,
        }
    }
}

/// The mapping that a list of named values stands for: each name has the
/// value of its last entry.
pub open spec fn map_of(entries: Seq<(String, Value)>) -> Map<Seq<char>, SpecValue>
    decreases entries.len(),
{
    if entries.len() == 0 {
        Map::empty()
    } else {
        map_of(entries.drop_last()).insert(entries.last().0@, entries.last().1@)
    }
}

/// A name without a later entry has, in the mapping, the value of its entry.
pub proof fn lemma_map_of_last_entry(entries: Seq<(String, Value)>, idx: int)
    requires
        0 <= idx < entries.len(),
        forall|j: int| idx < j < entries.len() ==> (#[trigger] entries[j]).0@ != entries[idx].0@,
    ensures
        map_of(entries).contains_key(entries[idx].0@),
        map_of(entries)[entries[idx].0@] == entries[idx].1@,
    decreases entries.len(),
{
    if idx < entries.len() - 1 {
        lemma_map_of_last_entry(entries.drop_last(), idx);
    }
}

/// A name without an entry is not in the mapping.
pub proof fn lemma_map_of_absent(entries: Seq<(String, Value)>, key: Seq<char>)
    requires
        forall|j: int| 0 <= j < entries.len() ==> (#[trigger] entries[j]).0@ != key,
    ensures
        !map_of(entries).contains_key(key),
    decreases entries.len(),
{
    if entries.len() > 0 {
        lemma_map_of_absent(entries.drop_last(), key);
    }
}

/// Replacing the last entry of a name sets the name in the mapping.
pub proof fn lemma_map_of_update(entries: Seq<(String, Value)>, idx: int, entry: (String, Value))
    requires
        0 <= idx < entries.len(),
        entry.0@ == entries[idx].0@,
        forall|j: int| idx < j < entries.len() ==> (#[trigger] entries[j]).0@ != entries[idx].0@,
    ensures
        map_of(entries.update(idx, entry)) =~= map_of(entries).insert(entry.0@, entry.1@),
    decreases entries.len(),
{
    let updated = entries.update(idx, entry);
    if idx == entries.len() - 1 {
        assert(updated.drop_last() =~= entries.drop_last());
    } else {
        lemma_map_of_update(entries.drop_last(), idx, entry);
        assert(updated.drop_last() =~= entries.drop_last().update(idx, entry));
    }
}

/// The variables of a story: a finite mapping from names to values.
#[derive(Debug)]
pub struct VarMap {
    entries: Vec<(String, Value)>,
}

impl View for VarMap {
    type V = Map<Seq<char>, SpecValue>;

    closed spec fn view(&self) -> Map<Seq<char>, SpecValue> {
        map_of(self.entries@)
    }
}

impl Clone for VarMap {
    fn clone(&self) -> (r: VarMap)
        ensures
            r@ == self@,
    {
        let mut entries: Vec<(String, Value)> = Vec::new();
        let mut k: usize = 0;
        while k < self.entries.len()
            invariant
                0 <= k <= self.entries.len(),
                entries@ == self.entries@.take(k as int),
            decreases self.entries.len() - k,
        {
            let ghost before = entries@;
            entries.push((self.entries[k].0.clone(), self.entries[k].1.clone()));
            proof {
                assert(entries@ =~= self.entries@.take(k + 1));
            }
            k = k + 1;
        }
        proof {
            assert(self.entries@.take(self.entries.len() as int) =~= self.entries@);
        }
        VarMap { entries }
    }
}

impl VarMap {
    /// The empty mapping.
    pub fn new() -> (r: VarMap)
        ensures
            r@ == Map::<Seq<char>, SpecValue>::empty(),
    {
        VarMap { entries: Vec::new() }
    }

    /// The index of the last entry named `key`.
    fn find(&self, key: &str) -> (r: Option<usize>)
        ensures
            match r {
                Some(idx) => idx < self.entries.len() && self.entries[idx as int].0@ == key@ && forall|j: int|
                    idx < j < self.entries.len() ==> (#[trigger] self.entries[j]).0@ != key@,
                None => forall|j: int| 0 <= j < self.entries.len() ==> (#[trigger] self.entries[j]).0@ != key@,
            },
    {
        let mut k: usize = self.entries.len();
        while k > 0
            invariant
                0 <= k <= self.entries.len(),
                forall|j: int| k <= j < self.entries.len() ==> (#[trigger] self.entries[j]).0@ != key@,
            decreases k,
        {
            k = k - 1;
            if same_text(self.entries[k].0.as_str(), key) {
                return Some(k);
            }
        }
        None
    }

    /// The value of `key`, where the mapping has one.
    pub fn get(&self, key: &str) -> (r: Option<&Value>)
        ensures
            match r {
                Some(v) => self@.contains_key(key@) && v@ == self@[key@],
                None => !self@.contains_key(key@),
            },
    {
        match self.find(key) {
            Some(idx) => {
                proof {
                    lemma_map_of_last_entry(self.entries@, idx as int);
                }
                Some(&self.entries[idx].1)
            },
            None => {
                proof {
                    lemma_map_of_absent(self.entries@, key@);
                }
                None
            },
        }
    }

    /// Whether `key` has a value.
    pub fn contains_key(&self, key: &str) -> (r: bool)
        ensures
            r == self@.contains_key(key@),
    {
        self.get(key).is_some()
    }

    /// Sets `key` to `value`, whether or not it had a value.
    pub fn insert(&mut self, key: String, value: Value)
        ensures
            final(self)@ == old(self)@.insert(key@, value@),
    {
        match self.find(key.as_str()) {
            Some(idx) => {
                proof {
                    lemma_map_of_update(self.entries@, idx as int, (key, value));
                }
                self.entries.set(idx, (key, value));
            },
            None => {
                let ghost before = self.entries@;
                self.entries.push((key, value));
                proof {
                    assert(self.entries@.drop_last() =~= before);
                }
            },
        }
    }

    /// The named values that make up the mapping; of two entries of one
    /// name the later one counts.
    pub fn entries(&self) -> (r: &Vec<(String, Value)>)
        ensures
            map_of(r@) == self@,
    {
        &self.entries
    }
}

/// A choice of a node: what it shows, the condition under which it is
/// offered, and the node it leads to.
#[derive(Debug, Clone)]
pub struct StoryChoice {
    pub text: String,
    pub cond: Option<String>,
    pub next: String,
}

/// A choice as a frontend sees it.
#[derive(Debug, Clone)]
pub struct ChoiceView {
    pub text: String,
    pub next: String,
}

/// A node of a story. `set` and `inc` are its entry effects, in declared
/// order; `end` marks it as terminal.
#[derive(Debug, Clone)]
pub struct StoryNode {
    pub id: String,
    pub text: String,
    pub choices: Vec<StoryChoice>,
    pub set: Vec<(String, Value)>,
    pub inc: Vec<(String, i64)>,
    pub end: bool,
}

/// A story: the id of its start node, its variables with their initial
/// values, and its nodes.
#[derive(Debug, Clone)]
pub struct Story {
    pub start: String,
    pub variables: VarMap,
    pub nodes: Vec<StoryNode>,
}

/// A `StoryChoice` with its texts as character sequences.
pub struct SpecStoryChoice {
    pub text: Seq<char>,
    pub cond: Option<Seq<char>>,
    pub next: Seq<char>,
}

/// A `ChoiceView` with its texts as character sequences.
pub struct SpecChoiceView {
    pub text: Seq<char>,
    pub next: Seq<char>,
}

/// A `StoryNode` over the views of its parts.
pub struct SpecStoryNode {
    pub id: Seq<char>,
    pub text: Seq<char>,
    pub choices: Seq<SpecStoryChoice>,
    pub set: Seq<(Seq<char>, SpecValue)>,
    pub inc: Seq<(Seq<char>, i64)>,
    pub end: bool,
}

/// A `Story` over the views of its parts, with its variables as a mapping.
pub struct SpecStory {
    pub start: Seq<char>,
    pub variables: Map<Seq<char>, SpecValue>,
    pub nodes: Seq<SpecStoryNode>,
}

impl View for StoryChoice {
    type V = SpecStoryChoice;

    open spec fn view(&self) -> SpecStoryChoice {
        SpecStoryChoice {
            text: self.text@,
            cond: match self.cond {
                Some(c) => Some(c@),
                None => None,
            },
            next: self.next@,
        }
    }
}

impl View for ChoiceView {
    type V = SpecChoiceView;

    open spec fn view(&self) -> SpecChoiceView {
        SpecChoiceView { text: self.text@, next: self.next@ }
    }
}

/// The views of the choices of a list, in order.
pub open spec fn choices_view(choices: Seq<StoryChoice>) -> Seq<SpecStoryChoice> {
    Seq::new(choices.len(), |i: int| choices[i]@)
}

/// The views of the frontend choices of a list, in order.
pub open spec fn choice_views_view(choices: Seq<ChoiceView>) -> Seq<SpecChoiceView> {
    Seq::new(choices.len(), |i: int| choices[i]@)
}

impl View for StoryNode {
    type V = SpecStoryNode;

    open spec fn view(&self) -> SpecStoryNode {
        SpecStoryNode {
            id: self.id@,
            text: self.text@,
            choices: choices_view(self.choices@),
            set: Seq::new(self.set@.len(), |i: int| (self.set@[i].0@, self.set@[i].1@)),
            inc: Seq::new(self.inc@.len(), |i: int| (self.inc@[i].0@, self.inc@[i].1)),
            end: self.end,
        }
    }
}

/// The views of the nodes of a list, in order.
pub open spec fn nodes_view(nodes: Seq<StoryNode>) -> Seq<SpecStoryNode> {
    Seq::new(nodes.len(), |i: int| nodes[i]@)
}

impl View for Story {
    type V = SpecStory;

    open spec fn view(&self) -> SpecStory {
        SpecStory { start: self.start@, variables: self.variables@, nodes: nodes_view(self.nodes@) }
    }
}

/// The index of the node that `id` names among the first `n` nodes: of two
/// nodes of one id the later one.
pub open spec fn node_index(nodes: Seq<SpecStoryNode>, id: Seq<char>, n: int) -> Option<int>
    decreases n,
{
    if n <= 0 {
        None
    } else if nodes[n - 1].id == id {
        Some(n - 1)
    } else {
        node_index(nodes, id, n - 1)
    }
}

/// Whether some node has the id `id`.
pub open spec fn has_node(nodes: Seq<SpecStoryNode>, id: Seq<char>) -> bool {
    exists|i: int| 0 <= i < nodes.len() && (#[trigger] nodes[i]).id == id
}

/// `node_index` finds the last node of the id, and none where no node has it.
pub proof fn lemma_node_index(nodes: Seq<SpecStoryNode>, id: Seq<char>, n: int)
    requires
        0 <= n <= nodes.len(),
    ensures
        match node_index(nodes, id, n) {
            Some(i) => 0 <= i < n && nodes[i].id == id && forall|j: int| i < j < n ==> (#[trigger] nodes[j]).id != id,
            None => forall|j: int| 0 <= j < n ==> (#[trigger] nodes[j]).id != id,
        },
    decreases n,
{
    if n > 0 && nodes[n - 1].id != id {
        lemma_node_index(nodes, id, n - 1);
    }
}

impl SpecStory {
    /// The node that `id` names.
    pub open spec fn node(self, id: Seq<char>) -> Option<SpecStoryNode> {
        match node_index(self.nodes, id, self.nodes.len() as int) {
            Some(i) => Some(self.nodes[i]),
            None => None,
        }
    }

    /// Whether the start node exists.
    pub open spec fn start_exists(self) -> bool {
        has_node(self.nodes, self.start)
    }

    /// Whether no two nodes share an id.
    pub open spec fn unique_ids(self) -> bool {
        forall|i: int, j: int| 0 <= i < j < self.nodes.len() ==> (#[trigger] self.nodes[i]).id != (#[trigger] self.nodes[j]).id
    }

    /// Whether every choice leads to a node that exists.
    pub open spec fn targets_exist(self) -> bool {
        forall|i: int, j: int|
            0 <= i < self.nodes.len() && 0 <= j < self.nodes[i].choices.len() ==> has_node(
                self.nodes,
                (#[trigger] self.nodes[i].choices[j]).next,
            )
    }

    /// Whether a session can walk the story: it has its start node, and no
    /// choice leads nowhere.
    pub open spec fn playable(self) -> bool {
        self.start_exists() && self.targets_exist()
    }

    /// Whether the story is free of errors: playable, with unique node ids.
    pub open spec fn valid(self) -> bool {
        self.playable() && self.unique_ids()
    }
}

impl Story {
    /// The story with the given start, variables and nodes.
    pub fn new(start: String, variables: VarMap, nodes: Vec<StoryNode>) -> (r: Story)
        ensures
            r@ == (SpecStory { start: start@, variables: variables@, nodes: nodes_view(nodes@) }),
    {
        Story { start, variables, nodes }
    }

    /// The index of the node that `id` names.
    pub fn node_position(&self, id: &str) -> (r: Option<usize>)
        ensures
            match r {
                Some(i) => node_index(self@.nodes, id@, self@.nodes.len() as int) == Some(i as int) && i
                    < self.nodes.len(),
                None => node_index(self@.nodes, id@, self@.nodes.len() as int) is None,
            },
    {
        let mut k: usize = self.nodes.len();
        while k > 0
            invariant
                0 <= k <= self.nodes.len(),
                node_index(self@.nodes, id@, self@.nodes.len() as int) == node_index(self@.nodes, id@, k as int),
            decreases k,
        {
            k = k - 1;
            if same_text(self.nodes[k].id.as_str(), id) {
                return Some(k);
            }
        }
        None
    }

    /// The node that `id` names, where there is one.
    pub fn node(&self, id: &str) -> (r: Option<&StoryNode>)
        ensures
            match r {
                Some(n) => self@.node(id@) == Some(n@),
                None => self@.node(id@) is None,
            },
            r is Some <==> has_node(self@.nodes, id@),
    {
        proof {
            lemma_node_index(self@.nodes, id@, self@.nodes.len() as int);
        }
        match self.node_position(id) {
            Some(i) => Some(&self.nodes[i]),
            None => None,
        }
    }
}

} // verus!
