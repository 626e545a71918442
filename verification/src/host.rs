//! What a host application keeps of a loaded story, and the operations
//! that it offers on it. The host guards one `AppState` and calls these.

use crate::error::{spec_runtime_text, story_diagnostics_view, Diagnostic};
use crate::model::{choice_views_view, ChoiceView, Story};
use crate::runtime::{choice_oob_message, share_story, start_session, SpecState, StoryState};
use crate::validate::spec_validate;
use std::sync::Arc;
use vstd::prelude::*;
use vstd::string::*;

verus! {

/// The current node as a frontend sees it.
#[derive(Debug, Clone)]
pub struct NodeView {
    pub id: String,
    pub text: String,
    pub end: bool,
}

/// The story that is loaded, and the session on it.
pub struct AppState {
    pub story: Option<Arc<Story>>,
    pub state: Option<StoryState>,
}

impl Default for AppState {
    /// The state in which nothing is loaded.
    fn default() -> (r: AppState)
        ensures
            r.story is None,
            r.state is None,
    {
        AppState { story: None, state: None }
    }
}

/// The greeting of `name`.
pub fn greet(name: &str) -> (r: String)
    ensures
        r@ == "Hello, "@ + name@ + "! You've been greeted from Rust!"@,
{
    let mut r = String::from_str("Hello, ");
    r.append(name);
    r.append("! You've been greeted from Rust!");
    r
}

/// The node on which a session stands, for a frontend.
pub fn node_view(state: &StoryState) -> (r: NodeView)
    ensures
        r.id@ == state@.current_node().id,
        r.text@ == state@.current_node().text,
        r.end == state@.current_node().end,
{
    let node = state.current_node();
    NodeView { id: node.id.clone(), text: node.text.clone(), end: node.end }
}

/// The error of an operation that needs a loaded story where there is none.
pub fn no_story_loaded() -> (r: String)
    ensures
        r@ == "no story loaded"@,
{
    String::from_str("no story loaded")
}

/// The current node of the loaded story.
pub fn get_current_node(app: &AppState) -> (r: Result<NodeView, String>)
    ensures
        match (app.state, r) {
            (Some(state), Ok(view)) => view.id@ == state@.current_node().id && view.text@
                == state@.current_node().text && view.end == state@.current_node().end,
            (None, Err(e)) => e@ == "no story loaded"@,
            _ => false,
        },
{
    match &app.state {
        Some(state) => Ok(node_view(state)),
        None => Err(no_story_loaded()),
    }
}

/// The choices that the loaded story offers now.
pub fn get_choices(app: &AppState) -> (r: Result<Vec<ChoiceView>, String>)
    ensures
        match (app.state, r) {
            (Some(state), Ok(choices)) => choice_views_view(choices@) == state@.available_choices(),
            (None, Err(e)) => e@ == "no story loaded"@,
            _ => false,
        },
{
    match &app.state {
        Some(state) => Ok(state.available_choices()),
        None => Err(no_story_loaded()),
    }
}

/// Loads a story: it is validated, and a session starts on it. A story
/// with errors is not loaded, and what was loaded before stays.
pub fn load_story(app: &mut AppState, story: Story) -> (r: Result<(), Vec<Diagnostic>>)
    ensures
        match r {
            Ok(()) => {
                &&& story@.valid()
                &&& final(app).story matches Some(loaded) && loaded@ == story@
                &&& final(app).state matches Some(state) && state@ == SpecState::start(story@)
            },
            Err(diags) => !story@.valid() && story_diagnostics_view(diags@) == spec_validate(story@) && *final(app)
                == *old(app),
        },
{
    let shared = Arc::new(story);
    let kept = share_story(&shared);
    match start_session(shared) {
        Ok(state) => {
            app.story = Some(kept);
            app.state = Some(state);
            Ok(())
        },
        Err(diags) => Err(diags),
    }
}

/// Takes the offered choice of index `index` in the loaded story. Where
/// it fails, the session stays as it was.
pub fn choose_at(app: &mut AppState, index: usize) -> (r: Result<(), String>)
    ensures
        final(app).story == old(app).story,
        match old(app).state {
            Some(before) => final(app).state matches Some(after) && (match r {
                Ok(()) => index < before@.offered_choices().len() && after@ == before@.chosen(index as int),
                Err(e) => index >= before@.offered_choices().len() && after@ == before@ && e@ == spec_runtime_text(
                    "choice_oob"@,
                    choice_oob_message(index as nat),
                ),
            }),
            None => final(app).state is None && (r matches Err(e) && e@ == "no story loaded"@),
        },
{
    match &mut app.state {
        Some(state) => match state.choose_at(index) {
            Ok(()) => Ok(()),
            Err(e) => Err(e.describe()),
        },
        None => Err(no_story_loaded()),
    }
}

/// Puts the session on the loaded story back to its start.
pub fn reset(app: &mut AppState) -> (r: Result<(), String>)
    ensures
        final(app).story == old(app).story,
        match old(app).state {
            Some(before) => r is Ok && (final(app).state matches Some(after) && after@ == before@.reset()),
            None => final(app).state is None && (r matches Err(e) && e@ == "no story loaded"@),
        },
{
    match &mut app.state {
        Some(state) => {
            state.reset();
            Ok(())
        },
        None => Err(no_story_loaded()),
    }
}

} // verus!
