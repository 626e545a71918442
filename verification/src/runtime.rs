//! The engine: a session is a state machine over a story, driven by
//! `choose_at` and `reset`, with the variables as its only other state.

use crate::condition::{eval, spec_eval};
use crate::error::{story_diagnostics_view, Diagnostic, StoryError};
use crate::validate::{has_errors, lemma_valid_iff_no_error, spec_validate, validate_story};
use crate::model::{choice_views_view, has_node, lemma_node_index, ChoiceView, SpecChoiceView, SpecStory, SpecStoryChoice, SpecStoryNode, SpecValue, Story, StoryChoice, StoryNode, Value, VarMap};
use crate::text::{decimal, decimal_spec};
use std::sync::Arc;
use vstd::prelude::*;
use vstd::string::*;

verus! {

/// The sum of two numbers, held at the least or the greatest number where
/// it lies beyond.
pub open spec fn saturating_sum(a: i64, b: i64) -> i64 {
    if a + b > i64::MAX {
        i64::MAX
    } else if a + b < i64::MIN {
        i64::MIN
    } else {
        (a + b) as i64
    }
}

/// The number that `key` holds: zero where it holds none.
pub open spec fn number_of(vars: Map<Seq<char>, SpecValue>, key: Seq<char>) -> i64 {
    if vars.contains_key(key) {
        match vars[key] {
            SpecValue::Num(n) => n,
            _ => 0,
        }
    } else {
        0
    }
}

/// The variables after the first `n` of the `set` effects, in order.
pub open spec fn apply_sets(vars: Map<Seq<char>, SpecValue>, set: Seq<(Seq<char>, SpecValue)>, n: int) -> Map<
    Seq<char>,
    SpecValue,
>
    decreases n,
{
    if n <= 0 {
        vars
    } else {
        apply_sets(vars, set, n - 1).insert(set[n - 1].0, set[n - 1].1)
    }
}

/// The variables after the first `n` of the `inc` effects, in order.
pub open spec fn apply_incs(vars: Map<Seq<char>, SpecValue>, inc: Seq<(Seq<char>, i64)>, n: int) -> Map<
    Seq<char>,
    SpecValue,
>
    decreases n,
{
    if n <= 0 {
        vars
    } else {
        let before = apply_incs(vars, inc, n - 1);
        before.insert(inc[n - 1].0, SpecValue::Num(saturating_sum(number_of(before, inc[n - 1].0), inc[n - 1].1)))
    }
}

/// The variables after the entry effects of a node: all its sets, then all
/// its increments, each in declared order.
pub open spec fn enter(vars: Map<Seq<char>, SpecValue>, node: SpecStoryNode) -> Map<Seq<char>, SpecValue> {
    apply_incs(apply_sets(vars, node.set, node.set.len() as int), node.inc, node.inc.len() as int)
}

/// The variables after the entry effects of the node that `id` names;
/// unchanged where it names none.
pub open spec fn enter_node(story: SpecStory, vars: Map<Seq<char>, SpecValue>, id: Seq<char>) -> Map<
    Seq<char>,
    SpecValue,
> {
    match story.node(id) {
        Some(node) => enter(vars, node),
        None => vars,
    }
}

/// Whether a choice is offered under the variables: it has no condition,
/// or its condition holds.
pub open spec fn offered(choice: SpecStoryChoice, vars: Map<Seq<char>, SpecValue>) -> bool {
    match choice.cond {
        Some(cond) => spec_eval(vars, cond),
        None => true,
    }
}

/// The choices that are offered among the first `n`, in declared order.
pub open spec fn filtered(choices: Seq<SpecStoryChoice>, vars: Map<Seq<char>, SpecValue>, n: int) -> Seq<
    SpecStoryChoice,
>
    decreases n,
{
    if n <= 0 {
        Seq::empty()
    } else if offered(choices[n - 1], vars) {
        filtered(choices, vars, n - 1).push(choices[n - 1])
    } else {
        filtered(choices, vars, n - 1)
    }
}

/// The state of a session. `initial_vars` are the variables that the session
/// was created with, before any entry effect; a reset goes back to them.
pub struct SpecState {
    pub story: SpecStory,
    pub story_start: Seq<char>,
    pub current_id: Seq<char>,
    pub vars: Map<Seq<char>, SpecValue>,
    pub initial_vars: Map<Seq<char>, SpecValue>,
}

/// What a snapshot holds of a session.
pub struct SpecSnapshot {
    pub current_id: Seq<char>,
    pub vars: Map<Seq<char>, SpecValue>,
}

impl SpecState {
    /// Whether the state is one of a session: the story can be walked, the
    /// current node exists, and the start is that of the story.
    pub open spec fn wf(self) -> bool {
        &&& self.story.playable()
        &&& has_node(self.story.nodes, self.current_id)
        &&& self.story_start == self.story.start
    }

    /// The session that starts on `story`: at the start node, with the
    /// declared variables after the entry effects of that node.
    pub open spec fn start(story: SpecStory) -> SpecState {
        SpecState {
            story,
            story_start: story.start,
            current_id: story.start,
            vars: enter_node(story, story.variables, story.start),
            initial_vars: story.variables,
        }
    }

    /// The node on which the session stands.
    pub open spec fn current_node(self) -> SpecStoryNode {
        self.story.node(self.current_id)->0
    }

    /// The choices of the current node that are offered, in declared order.
    pub open spec fn offered_choices(self) -> Seq<SpecStoryChoice> {
        filtered(self.current_node().choices, self.vars, self.current_node().choices.len() as int)
    }

    /// The offered choices as a frontend sees them.
    pub open spec fn available_choices(self) -> Seq<SpecChoiceView> {
        Seq::new(
            self.offered_choices().len(),
            |i: int| SpecChoiceView { text: self.offered_choices()[i].text, next: self.offered_choices()[i].next },
        )
    }

    /// The state after the offered choice of index `i` is taken: the
    /// session stands on its target, after the entry effects of that node.
    pub open spec fn chosen(self, i: int) -> SpecState
        recommends
            0 <= i < self.offered_choices().len(),
    {
        let next = self.offered_choices()[i].next;
        SpecState {
            story: self.story,
            story_start: self.story_start,
            current_id: next,
            vars: enter_node(self.story, self.vars, next),
            initial_vars: self.initial_vars,
        }
    }

    /// The state after a reset: back on the start node, with the variables
    /// of the session's creation after the entry effects of that node.
    pub open spec fn reset(self) -> SpecState {
        SpecState {
            story: self.story,
            story_start: self.story_start,
            current_id: self.story_start,
            vars: enter_node(self.story, self.initial_vars, self.story_start),
            initial_vars: self.initial_vars,
        }
    }

    /// What a snapshot keeps of the state: the current node and the variables.
    pub open spec fn snapshot(self) -> SpecSnapshot {
        SpecSnapshot { current_id: self.current_id, vars: self.vars }
    }

    /// The session that a snapshot restores on `story`: on the node and
    /// with the variables of the snapshot, as they are. These variables are
    /// those of the session's creation, so a later reset goes back to them
    /// and not to what the story declares. There is none where the snapshot
    /// names no node of the story.
    pub open spec fn restored(story: SpecStory, snapshot: SpecSnapshot) -> Option<SpecState> {
        if has_node(story.nodes, snapshot.current_id) {
            Some(
                SpecState {
                    story,
                    story_start: story.start,
                    current_id: snapshot.current_id,
                    vars: snapshot.vars,
                    initial_vars: snapshot.vars,
                },
            )
        } else {
            None
        }
    }
}

fn saturating_add(a: i64, b: i64) -> (r: i64)
    ensures
        r == saturating_sum(a, b),
{
    match a.checked_add(b) {
        Some(v) => v,
        None => {
            if b > 0 {
                i64::MAX
            } else {
                i64::MIN
            }
        },
    }
}

/// Applies the entry effects of `node` to the variables.
pub fn apply_enter_effects(vars: &mut VarMap, node: &StoryNode)
    ensures
        final(vars)@ == enter(old(vars)@, node@),
{
    let mut k: usize = 0;
    while k < node.set.len()
        invariant
            0 <= k <= node.set.len(),
            vars@ == apply_sets(old(vars)@, node@.set, k as int),
        decreases node.set.len() - k,
    {
        assert(node@.set[k as int] == (node.set[k as int].0@, node.set[k as int].1@));
        vars.insert(node.set[k].0.clone(), node.set[k].1.clone());
        k = k + 1;
    }
    let ghost after_sets = vars@;
    let mut k: usize = 0;
    while k < node.inc.len()
        invariant
            0 <= k <= node.inc.len(),
            vars@ == apply_incs(after_sets, node@.inc, k as int),
        decreases node.inc.len() - k,
    {
        assert(node@.inc[k as int] == (node.inc[k as int].0@, node.inc[k as int].1));
        let current: i64 = match vars.get(node.inc[k].0.as_str()) {
            Some(Value::Num(n)) => *n,
            _ => 0,
        };
        vars.insert(node.inc[k].0.clone(), Value::Num(saturating_add(current, node.inc[k].1)));
        k = k + 1;
    }
}

/// What is needed to resume a session: the id of its current node, and
/// its variables.
#[derive(Debug, Clone)]
pub struct Snapshot {
    pub current_id: String,
    pub vars: VarMap,
}

impl View for Snapshot {
    type V = SpecSnapshot;

    open spec fn view(&self) -> SpecSnapshot {
        SpecSnapshot { current_id: self.current_id@, vars: self.vars@ }
    }
}

/// A session on a story. It always stands on a node of its story.
#[derive(Debug)]
pub struct StoryState {
    story: Arc<Story>,
    story_start: String,
    current_id: String,
    vars: VarMap,
    initial_vars: VarMap,
}

impl View for StoryState {
    type V = SpecState;

    closed spec fn view(&self) -> SpecState {
        SpecState {
            story: self.story@,
            story_start: self.story_start@,
            current_id: self.current_id@,
            vars: self.vars@,
            initial_vars: self.initial_vars@,
        }
    }
}

/// `Arc::clone`: another pointer to the same story.
#[verifier::external_body]
pub(crate) fn share_story(story: &Arc<Story>) -> (r: Arc<Story>)
    ensures
        r@ == story@,
{
    Arc::clone(story)
}

impl Clone for StoryState {
    /// A second session in the same state, on the same story.
    fn clone(&self) -> (r: StoryState)
        ensures
            r@ == self@,
    {
        proof {
            use_type_invariant(self);
        }
        StoryState {
            story: share_story(&self.story),
            story_start: self.story_start.clone(),
            current_id: self.current_id.clone(),
            vars: self.vars.clone(),
            initial_vars: self.initial_vars.clone(),
        }
    }
}

/// The message of the error for a choice index that is out of range.
pub open spec fn choice_oob_message(index: nat) -> Seq<char> {
    "Choice index "@ + decimal_spec(index) + " out of range"@
}

/// The message of the error for a snapshot on an unknown node.
pub open spec fn unknown_node_message(id: Seq<char>) -> Seq<char> {
    "Snapshot references unknown node '"@ + id + "'"@
}

impl StoryState {
    #[verifier::type_invariant]
    spec fn inv(self) -> bool {
        self@.wf()
    }

    /// Starts a session on a story: at its start node, after the entry
    /// effects of that node.
    pub fn new(story: Arc<Story>) -> (r: StoryState)
        requires
            story@.playable(),
        ensures
            r@ == SpecState::start(story@),
            r@.wf(),
    {
        let start = story.start.clone();
        let mut vars = story.variables.clone();
        let initial_vars = story.variables.clone();
        if let Some(node) = story.node(start.as_str()) {
            apply_enter_effects(&mut vars, node);
        }
        StoryState { story, story_start: start.clone(), current_id: start, vars, initial_vars }
    }

    /// The node on which the session stands.
    pub fn current_node(&self) -> (r: &StoryNode)
        ensures
            r@ == self@.current_node(),
            self@.story.node(self@.current_id) == Some(r@),
            self@.wf(),
    {
        proof {
            use_type_invariant(self);
        }
        self.story.node(self.current_id.as_str()).unwrap()
    }

    /// The id of the node on which the session stands.
    pub fn current_id(&self) -> (r: &str)
        ensures
            r@ == self@.current_id,
    {
        self.current_id.as_str()
    }

    /// The variables of the session.
    pub fn vars(&self) -> (r: &VarMap)
        ensures
            r@ == self@.vars,
    {
        &self.vars
    }

    /// Whether the current node is marked as an end of the story.
    pub fn is_end(&self) -> (r: bool)
        ensures
            r == self@.current_node().end,
    {
        self.current_node().end
    }

    /// The choices that the current node offers under the variables, in
    /// declared order.
    pub fn available_choices(&self) -> (r: Vec<ChoiceView>)
        ensures
            choice_views_view(r@) == self@.available_choices(),
    {
        let node = self.current_node();
        let mut out: Vec<ChoiceView> = Vec::new();
        let mut k: usize = 0;
        while k < node.choices.len()
            invariant
                0 <= k <= node.choices.len(),
                out.len() == filtered(node@.choices, self@.vars, k as int).len(),
                forall|i: int|
                    0 <= i < out.len() ==> (#[trigger] out[i])@ == (SpecChoiceView {
                        text: filtered(node@.choices, self@.vars, k as int)[i].text,
                        next: filtered(node@.choices, self@.vars, k as int)[i].next,
                    }),
            decreases node.choices.len() - k,
        {
            let choice = &node.choices[k];
            assert(node@.choices[k as int] == choice@);
            if is_offered(choice, &self.vars) {
                out.push(ChoiceView { text: choice.text.clone(), next: choice.next.clone() });
            }
            k = k + 1;
        }
        proof {
            assert(choice_views_view(out@) =~= self@.available_choices());
        }
        out
    }

    /// Takes the offered choice of index `filtered_index`. An index out of
    /// range fails with `choice_oob` and leaves the session as it was.
    pub fn choose_at(&mut self, filtered_index: usize) -> (r: Result<(), StoryError>)
        ensures
            match r {
                Ok(()) => filtered_index < old(self)@.offered_choices().len() && final(self)@ == old(self)@.chosen(
                    filtered_index as int,
                ),
                Err(e) => filtered_index >= old(self)@.offered_choices().len() && final(self)@ == old(self)@ && (
                e matches StoryError::Runtime { code, message } && code@ == "choice_oob"@ && message@
                    == choice_oob_message(filtered_index as nat)),
            },
            final(self)@.wf(),
    {
        proof {
            use_type_invariant(&*self);
        }
        let node = self.story.node(self.current_id.as_str()).unwrap();
        match nth_offered(node, &self.vars, filtered_index) {
            None => {
                let mut message = String::from_str("Choice index ");
                message.append(decimal(filtered_index).as_str());
                message.append(" out of range");
                Err(StoryError::Runtime { code: "choice_oob", message })
            },
            Some(p) => {
                let next = node.choices[p].next.clone();
                proof {
                    lemma_node_index(self@.story.nodes, self@.current_id, self@.story.nodes.len() as int);
                    let i = crate::model::node_index(
                        self@.story.nodes,
                        self@.current_id,
                        self@.story.nodes.len() as int,
                    )->0;
                    assert(self@.story.nodes[i] == node@);
                    assert(has_node(self@.story.nodes, self@.story.nodes[i].choices[p as int].next));
                }
                self.current_id = next;
                self.enter_current();
                Ok(())
            },
        }
    }

    /// Puts the session back on the start node, with the variables of its
    /// creation after the entry effects of that node.
    pub fn reset(&mut self)
        ensures
            final(self)@ == old(self)@.reset(),
            final(self)@.wf(),
    {
        proof {
            use_type_invariant(&*self);
        }
        self.current_id = self.story_start.clone();
        self.vars = self.initial_vars.clone();
        self.enter_current();
    }

    /// Applies the entry effects of the current node to the variables.
    fn enter_current(&mut self)
        ensures
            final(self)@ == (SpecState {
                vars: enter_node(old(self)@.story, old(self)@.vars, old(self)@.current_id),
                ..old(self)@
            }),
    {
        proof {
            use_type_invariant(&*self);
        }
        let mut vars = VarMap::new();
        std::mem::swap(&mut self.vars, &mut vars);
        if let Some(node) = self.story.node(self.current_id.as_str()) {
            apply_enter_effects(&mut vars, node);
        }
        self.vars = vars;
    }

    /// What is needed to resume the session later.
    pub fn snapshot(&self) -> (r: Snapshot)
        ensures
            r@ == self@.snapshot(),
    {
        Snapshot { current_id: self.current_id.clone(), vars: self.vars.clone() }
    }

    /// Resumes a session on `story` from a snapshot, which is taken as it
    /// is; a reset of the session goes back to the variables of the
    /// snapshot. It fails with `snapshot_unknown_node` exactly where the
    /// snapshot names no node of the story.
    pub fn restore(story: Arc<Story>, snapshot: Snapshot) -> (r: Result<StoryState, StoryError>)
        requires
            story@.playable(),
        ensures
            match r {
                Ok(state) => SpecState::restored(story@, snapshot@) == Some(state@) && state@.wf(),
                Err(e) => SpecState::restored(story@, snapshot@) is None && (e matches StoryError::InvalidStory {
                    code,
                    message,
                    path,
                } && code@ == "snapshot_unknown_node"@ && path@ == "/current_id"@ && message@
                    == unknown_node_message(snapshot@.current_id)),
            },
    {
        if story.node(snapshot.current_id.as_str()).is_none() {
            let mut message = String::from_str("Snapshot references unknown node '");
            message.append(snapshot.current_id.as_str());
            message.append("'");
            return Err(
                StoryError::InvalidStory {
                    code: "snapshot_unknown_node",
                    message,
                    path: String::from_str("/current_id"),
                },
            );
        }
        let story_start = story.start.clone();
        let initial_vars = snapshot.vars.clone();
        Ok(StoryState { story, story_start, current_id: snapshot.current_id, vars: snapshot.vars, initial_vars })
    }
}

fn is_offered(choice: &StoryChoice, vars: &VarMap) -> (r: bool)
    ensures
        r == offered(choice@, vars@),
{
    match &choice.cond {
        Some(cond) => eval(vars, cond.as_str()),
        None => true,
    }
}

/// The position, among the choices of `node`, of the offered choice of
/// index `index`.
fn nth_offered(node: &StoryNode, vars: &VarMap, index: usize) -> (r: Option<usize>)
    ensures
        match r {
            Some(p) => p < node.choices.len() && index < filtered(
                node@.choices,
                vars@,
                node@.choices.len() as int,
            ).len() && filtered(node@.choices, vars@, node@.choices.len() as int)[index as int]
                == node@.choices[p as int],
            None => index >= filtered(node@.choices, vars@, node@.choices.len() as int).len(),
        },
{
    let mut seen: usize = 0;
    let mut k: usize = 0;
    while k < node.choices.len()
        invariant
            0 <= k <= node.choices.len(),
            seen == filtered(node@.choices, vars@, k as int).len(),
            seen <= k,
            seen <= index,
        decreases node.choices.len() - k,
    {
        assert(node@.choices[k as int] == node.choices[k as int]@);
        if is_offered(&node.choices[k], vars) {
            if seen == index {
                proof {
                    let upto = filtered(node@.choices, vars@, k + 1);
                    assert(upto == filtered(node@.choices, vars@, k as int).push(node@.choices[k as int]));
                    assert(upto[index as int] == node@.choices[k as int]);
                    lemma_filtered_prefix(node@.choices, vars@, k + 1, node@.choices.len() as int);
                }
                return Some(k);
            }
            seen = seen + 1;
        }
        k = k + 1;
    }
    None
}

/// The offered choices among the first `n` are the first of those among
/// the first `m`, for `n` up to `m`.
proof fn lemma_filtered_prefix(choices: Seq<SpecStoryChoice>, vars: Map<Seq<char>, SpecValue>, n: int, m: int)
    requires
        0 <= n <= m <= choices.len(),
    ensures
        filtered(choices, vars, n).len() <= filtered(choices, vars, m).len(),
        forall|i: int|
            0 <= i < filtered(choices, vars, n).len() ==> filtered(choices, vars, m)[i] == #[trigger] filtered(
                choices,
                vars,
                n,
            )[i],
    decreases m - n,
{
    if n < m {
        lemma_filtered_prefix(choices, vars, n, m - 1);
    }
}

/// Every choice that is kept is one of the choices, and is offered.
pub proof fn lemma_filtered_offered(choices: Seq<SpecStoryChoice>, vars: Map<Seq<char>, SpecValue>, n: int)
    requires
        0 <= n <= choices.len(),
    ensures
        forall|k: int|
            0 <= k < filtered(choices, vars, n).len() ==> offered(#[trigger] filtered(choices, vars, n)[k], vars)
                && exists|p: int| 0 <= p < n && choices[p] == filtered(choices, vars, n)[k],
    decreases n,
{
    if n > 0 {
        lemma_filtered_offered(choices, vars, n - 1);
        let before = filtered(choices, vars, n - 1);
        let all = filtered(choices, vars, n);
        assert forall|k: int| 0 <= k < all.len() implies offered(#[trigger] all[k], vars) && exists|p: int|
            0 <= p < n && choices[p] == all[k] by {
            if k < before.len() {
                assert(all[k] == before[k]);
                let p = choose|p: int| 0 <= p < n - 1 && choices[p] == before[k];
                assert(choices[p] == all[k]);
            } else {
                assert(choices[n - 1] == all[k]);
            }
        }
    }
}

/// No choice is available whose condition is false under the variables of
/// the session: each available choice shows a choice of the current node
/// that has no condition, or whose condition holds. The list is a function
/// of the state, so reading it again gives the same list.
pub proof fn lemma_available_choices_offered(state: SpecState, k: int)
    requires
        0 <= k < state.available_choices().len(),
    ensures
        exists|p: int|
            0 <= p < state.current_node().choices.len() && offered(
                #[trigger] state.current_node().choices[p],
                state.vars,
            ) && state.available_choices()[k] == (SpecChoiceView {
                text: state.current_node().choices[p].text,
                next: state.current_node().choices[p].next,
            }),
{
    let choices = state.current_node().choices;
    lemma_filtered_offered(choices, state.vars, choices.len() as int);
    let kept = state.offered_choices()[k];
    let p = choose|p: int| 0 <= p < choices.len() && choices[p] == kept;
    assert(offered(choices[p], state.vars));
}

/// Every state that a session reaches is well formed: the start on a story
/// that can be walked is, and taking an offered choice or resetting keeps
/// a state so.
pub proof fn lemma_steps_keep_wf(state: SpecState, i: int)
    requires
        state.wf(),
    ensures
        SpecState::start(state.story).wf(),
        state.reset().wf(),
        0 <= i < state.offered_choices().len() ==> state.chosen(i).wf(),
{
    if 0 <= i < state.offered_choices().len() {
        let choices = state.current_node().choices;
        lemma_filtered_offered(choices, state.vars, choices.len() as int);
        let kept = state.offered_choices()[i];
        let p = choose|p: int| 0 <= p < choices.len() && choices[p] == kept;
        lemma_node_index(state.story.nodes, state.current_id, state.story.nodes.len() as int);
        let n = crate::model::node_index(state.story.nodes, state.current_id, state.story.nodes.len() as int)->0;
        assert(state.story.nodes[n] == state.current_node());
        assert(has_node(state.story.nodes, state.story.nodes[n].choices[p].next));
    }
}

/// The variables of a snapshot survive a reset: a session that was restored
/// and is then reset stands on the start node with the variables of the
/// snapshot, after the entry effects of that node.
pub proof fn lemma_reset_keeps_restored_variables(story: SpecStory, snapshot: SpecSnapshot)
    requires
        SpecState::restored(story, snapshot) is Some,
    ensures
        SpecState::restored(story, snapshot)->0.reset().current_id == story.start,
        SpecState::restored(story, snapshot)->0.reset().vars == enter_node(story, snapshot.vars, story.start),
{
}

/// Two resets in a row leave the session where one reset leaves it.
pub proof fn lemma_reset_idempotent(state: SpecState)
    ensures
        state.reset().reset() == state.reset(),
{
}

/// A snapshot of a session restores, on the story of the session, to a
/// session on the same node with the same variables.
pub proof fn lemma_snapshot_round_trip(state: SpecState)
    requires
        state.wf(),
    ensures
        SpecState::restored(state.story, state.snapshot()) matches Some(back) && back.current_id
            == state.current_id && back.vars == state.vars && back.story == state.story && back.wf(),
{
}

/// Starts a session on a story.
pub fn new_state(story: Arc<Story>) -> (r: StoryState)
    requires
        story@.playable(),
    ensures
        r@ == SpecState::start(story@),
        r@.wf(),
{
    StoryState::new(story)
}

/// Validates a story and starts a session on it. Errors block the
/// session and are handed back with the warnings; warnings alone do not.
pub fn start_session(story: Arc<Story>) -> (r: Result<StoryState, Vec<Diagnostic>>)
    ensures
        match r {
            Ok(state) => story@.valid() && state@ == SpecState::start(story@) && state@.wf(),
            Err(diags) => !story@.valid() && story_diagnostics_view(diags@) == spec_validate(story@),
        },
{
    let diags = validate_story(&story);
    proof {
        lemma_valid_iff_no_error(story@);
    }
    if has_errors(&diags) {
        Err(diags)
    } else {
        Ok(StoryState::new(story))
    }
}

} // verus!
