use skroll::error::{DiagnosticLevel, StoryError};
use skroll::model::{Story, StoryChoice, StoryNode, Value, VarMap};
use skroll::runtime::{apply_enter_effects, new_state, start_session, Snapshot, StoryState};
use skroll::validate::validate;
use std::sync::Arc;

const SAMPLE: &str = r#"
    {
      "variables": { "hasKey": false, "courage": 0 },
      "start": "intro",
      "nodes": [
        { "id":"intro","text":"You wake up.","choices":[
          {"text":"Search","next":"search"},
          {"text":"Knock","next":"knock"}
        ]},
        { "id":"search","text":"You find a key.","set":{"hasKey":true},"choices":[
          {"text":"Back","next":"door"}
        ]},
        { "id":"knock","text":"Silence. Courage +1.","inc":{"courage":1},"choices":[
          {"text":"Back","next":"door"}
        ]},
        { "id":"door","text":"A locked door.","choices":[
          {"text":"Use key","if":"hasKey == true","next":"open"},
          {"text":"Force it","if":"courage >= 2","next":"force"},
          {"text":"Keep knocking","next":"knock"}
        ]},
        { "id":"open","text":"Freedom.","end":true },
        { "id":"force","text":"Broken latch. Freedom.","end":true }
      ]
    }"#;

fn value_of(json: &serde_json::Value) -> Value {
    match json {
        serde_json::Value::Bool(b) => Value::Bool(*b),
        serde_json::Value::Number(n) => Value::Num(n.as_i64().unwrap()),
        serde_json::Value::String(s) => Value::Str(s.clone()),
        other => panic!("not a value: {}", other),
    }
}

fn json_of(value: &Value) -> serde_json::Value {
    match value {
        Value::Bool(b) => serde_json::Value::Bool(*b),
        Value::Num(n) => serde_json::Value::Number(serde_json::Number::from(*n)),
        Value::Str(s) => serde_json::Value::String(s.clone()),
    }
}

fn vars_of(json: Option<&serde_json::Value>) -> VarMap {
    let mut vars = VarMap::new();
    if let Some(object) = json {
        for (name, value) in object.as_object().unwrap() {
            vars.insert(name.clone(), value_of(value));
        }
    }
    vars
}

fn load_story_from_str(text: &str) -> Result<Story, StoryError> {
    let json: serde_json::Value = match serde_json::from_str(text) {
        Ok(json) => json,
        Err(e) => return Err(StoryError::Json(e)),
    };
    let mut nodes = Vec::new();
    for node in json["nodes"].as_array().unwrap() {
        let mut choices = Vec::new();
        if let Some(list) = node.get("choices") {
            for choice in list.as_array().unwrap() {
                choices.push(StoryChoice {
                    text: choice["text"].as_str().unwrap().to_string(),
                    cond: choice.get("if").and_then(|c| c.as_str()).map(|c| c.to_string()),
                    next: choice["next"].as_str().unwrap().to_string(),
                });
            }
        }
        let mut set = Vec::new();
        if let Some(object) = node.get("set") {
            for (name, value) in object.as_object().unwrap() {
                set.push((name.clone(), value_of(value)));
            }
        }
        let mut inc = Vec::new();
        if let Some(object) = node.get("inc") {
            for (name, value) in object.as_object().unwrap() {
                inc.push((name.clone(), value.as_i64().unwrap()));
            }
        }
        nodes.push(StoryNode {
            id: node["id"].as_str().unwrap().to_string(),
            text: node["text"].as_str().unwrap().to_string(),
            choices,
            set,
            inc,
            end: node.get("end").and_then(|e| e.as_bool()).unwrap_or(false),
        });
    }
    Ok(Story::new(json["start"].as_str().unwrap().to_string(), vars_of(json.get("variables")), nodes))
}

fn state_to_json(state: &StoryState) -> Result<String, StoryError> {
    let snapshot = state.snapshot();
    let mut vars = serde_json::Map::new();
    for (name, value) in snapshot.vars.entries() {
        vars.insert(name.clone(), json_of(value));
    }
    let mut object = serde_json::Map::new();
    object.insert("current_id".to_string(), serde_json::Value::String(snapshot.current_id));
    object.insert("vars".to_string(), serde_json::Value::Object(vars));
    serde_json::to_string(&serde_json::Value::Object(object)).map_err(StoryError::Json)
}

fn state_from_json(story: Arc<Story>, text: &str) -> Result<StoryState, StoryError> {
    let json: serde_json::Value = serde_json::from_str(text).map_err(StoryError::Json)?;
    let snapshot = Snapshot {
        current_id: json["current_id"].as_str().unwrap().to_string(),
        vars: vars_of(json.get("vars")),
    };
    StoryState::restore(story, snapshot)
}

fn texts(state: &StoryState) -> Vec<String> {
    state.available_choices().into_iter().map(|c| c.text).collect()
}

#[test]
fn smoke() {
    let story = Arc::new(load_story_from_str(SAMPLE).unwrap());
    let diags = validate(&story);
    assert!(diags.iter().all(|d| d.level != DiagnosticLevel::Error));

    let mut st = new_state(story.clone());
    assert_eq!(st.current_node().id, "intro");
    // choose "Search"
    st.choose_at(0).unwrap();
    assert_eq!(st.current_node().id, "search");
    // back to door
    st.choose_at(0).unwrap();
    assert_eq!(st.current_node().id, "door");
    // now "Use key" visible
    let choices = st.available_choices();
    assert!(choices.iter().any(|c| c.text == "Use key"));
    st.choose_at(0).unwrap(); // filtered order keeps "Use key" first
    assert!(st.is_end());

    // save / load
    let snap = state_to_json(&st).unwrap();
    let st2 = state_from_json(story.clone(), &snap).unwrap();
    assert!(st2.is_end());
}

#[test]
fn searching_finds_the_key_and_opens_the_door() {
    let story = Arc::new(load_story_from_str(SAMPLE).unwrap());
    let mut st = start_session(story).ok().unwrap();
    assert_eq!(st.current_id(), "intro");
    assert_eq!(texts(&st), vec!["Search", "Knock"]);
    st.choose_at(0).unwrap();
    assert_eq!(st.current_id(), "search");
    assert_eq!(st.vars().get("hasKey"), Some(&Value::Bool(true)));
    assert_eq!(texts(&st), vec!["Back"]);
    st.choose_at(0).unwrap();
    assert_eq!(st.current_id(), "door");
    assert_eq!(texts(&st), vec!["Use key", "Keep knocking"]);
    let offered = st.available_choices();
    assert_eq!(offered[0].next, "open");
    st.choose_at(0).unwrap();
    assert_eq!(st.current_id(), "open");
    assert!(st.is_end());
    assert!(st.available_choices().is_empty());
}

#[test]
fn knocking_twice_gives_the_courage_to_force_the_door() {
    let story = Arc::new(load_story_from_str(SAMPLE).unwrap());
    let snapshot = Snapshot { current_id: "door".to_string(), vars: story.variables.clone() };
    let mut st = StoryState::restore(story, snapshot).unwrap();
    assert_eq!(st.current_id(), "door");
    assert_eq!(st.vars().get("hasKey"), Some(&Value::Bool(false)));
    assert_eq!(st.vars().get("courage"), Some(&Value::Num(0)));
    assert_eq!(texts(&st), vec!["Keep knocking"]);
    st.choose_at(0).unwrap();
    assert_eq!(st.current_id(), "knock");
    assert_eq!(st.vars().get("courage"), Some(&Value::Num(1)));
    st.choose_at(0).unwrap();
    assert_eq!(st.current_id(), "door");
    assert_eq!(texts(&st), vec!["Keep knocking"]);
    st.choose_at(0).unwrap();
    st.choose_at(0).unwrap();
    assert_eq!(st.current_id(), "door");
    assert_eq!(st.vars().get("courage"), Some(&Value::Num(2)));
    assert_eq!(texts(&st), vec!["Force it", "Keep knocking"]);
    st.choose_at(0).unwrap();
    assert_eq!(st.current_id(), "force");
    assert!(st.is_end());
}

#[test]
fn choice_out_of_range_fails_and_changes_nothing() {
    let story = Arc::new(load_story_from_str(SAMPLE).unwrap());
    let mut st = new_state(story);
    st.choose_at(1).unwrap();
    assert_eq!(st.current_id(), "knock");
    let before = st.snapshot();
    let err = st.choose_at(99).unwrap_err();
    match &err {
        StoryError::Runtime { code, message } => {
            assert_eq!(*code, "choice_oob");
            assert_eq!(message, "Choice index 99 out of range");
        }
        other => panic!("not a runtime error: {:?}", other),
    }
    assert_eq!(err.code(), Some("choice_oob"));
    assert_eq!(err.describe(), "Runtime error: Choice index 99 out of range (code: choice_oob)");
    assert_eq!(st.current_node().id, "knock");
    assert_eq!(st.current_id(), before.current_id);
    assert_eq!(st.vars().get("courage"), Some(&Value::Num(1)));
    assert_eq!(st.vars().get("hasKey"), Some(&Value::Bool(false)));
    let err = st.choose_at(1).unwrap_err();
    assert_eq!(err.code(), Some("choice_oob"));
    assert_eq!(st.current_id(), "knock");
}

#[test]
fn hidden_choices_do_not_count_for_the_index() {
    let story = Arc::new(load_story_from_str(SAMPLE).unwrap());
    let snapshot = Snapshot { current_id: "door".to_string(), vars: story.variables.clone() };
    let mut st = StoryState::restore(story, snapshot).unwrap();
    assert!(st.choose_at(1).is_err());
    assert!(st.choose_at(2).is_err());
    assert_eq!(st.current_id(), "door");
    st.choose_at(0).unwrap();
    assert_eq!(st.current_id(), "knock");
}

#[test]
fn reading_the_choices_twice_gives_the_same_list() {
    let story = Arc::new(load_story_from_str(SAMPLE).unwrap());
    let st = new_state(story);
    let first = st.available_choices();
    let second = st.available_choices();
    assert_eq!(format!("{:?}", first), format!("{:?}", second));
    assert_eq!(first.len(), 2);
}

#[test]
fn reset_twice_is_reset_once() {
    let story = Arc::new(load_story_from_str(SAMPLE).unwrap());
    let mut st = new_state(story);
    st.choose_at(1).unwrap();
    st.choose_at(0).unwrap();
    st.choose_at(0).unwrap();
    assert_eq!(st.vars().get("courage"), Some(&Value::Num(2)));
    st.reset();
    let once = state_to_json(&st).unwrap();
    assert_eq!(st.current_id(), "intro");
    assert_eq!(st.vars().get("courage"), Some(&Value::Num(0)));
    assert_eq!(st.vars().get("hasKey"), Some(&Value::Bool(false)));
    st.reset();
    let twice = state_to_json(&st).unwrap();
    assert_eq!(once, twice);
}

fn counting_story() -> Story {
    let start = StoryNode {
        id: "start".to_string(),
        text: "Counting.".to_string(),
        choices: vec![StoryChoice { text: "Again".to_string(), cond: None, next: "start".to_string() }],
        set: vec![
            ("label".to_string(), Value::Str("first".to_string())),
            ("label".to_string(), Value::Str("second".to_string())),
            ("n".to_string(), Value::Num(10)),
        ],
        inc: vec![
            ("n".to_string(), 5),
            ("n".to_string(), -2),
            ("fresh".to_string(), 3),
            ("label".to_string(), 1),
        ],
        end: false,
    };
    let mut vars = VarMap::new();
    vars.insert("n".to_string(), Value::Num(100));
    Story::new("start".to_string(), vars, vec![start])
}

#[test]
fn entry_effects_set_first_then_increment_in_order() {
    let mut st = new_state(Arc::new(counting_story()));
    assert_eq!(st.vars().get("n"), Some(&Value::Num(13)));
    assert_eq!(st.vars().get("fresh"), Some(&Value::Num(3)));
    assert_eq!(st.vars().get("label"), Some(&Value::Num(1)));
    st.choose_at(0).unwrap();
    assert_eq!(st.vars().get("n"), Some(&Value::Num(13)));
    assert_eq!(st.vars().get("fresh"), Some(&Value::Num(6)));
    st.reset();
    assert_eq!(st.vars().get("n"), Some(&Value::Num(13)));
    assert_eq!(st.vars().get("fresh"), Some(&Value::Num(3)));
}

#[test]
fn increments_stop_at_the_largest_number() {
    let node = StoryNode {
        id: "start".to_string(),
        text: String::new(),
        choices: vec![],
        set: vec![],
        inc: vec![("big".to_string(), 10), ("small".to_string(), -10)],
        end: true,
    };
    let mut vars = VarMap::new();
    vars.insert("big".to_string(), Value::Num(i64::MAX - 3));
    vars.insert("small".to_string(), Value::Num(i64::MIN + 3));
    let st = new_state(Arc::new(Story::new("start".to_string(), vars, vec![node])));
    assert_eq!(st.vars().get("big"), Some(&Value::Num(i64::MAX)));
    assert_eq!(st.vars().get("small"), Some(&Value::Num(i64::MIN)));
}

#[test]
fn snapshot_restores_to_the_same_node_and_variables() {
    let story = Arc::new(load_story_from_str(SAMPLE).unwrap());
    let mut st = new_state(story.clone());
    st.choose_at(1).unwrap();
    assert_eq!(st.current_id(), "knock");
    let snapshot = st.snapshot();
    assert_eq!(snapshot.current_id, "knock");
    assert_eq!(snapshot.vars.get("courage"), Some(&Value::Num(1)));
    let back = StoryState::restore(story.clone(), snapshot).unwrap();
    assert_eq!(back.current_id(), st.current_id());
    assert_eq!(back.vars().get("courage"), Some(&Value::Num(1)));
    assert_eq!(back.vars().get("hasKey"), Some(&Value::Bool(false)));
    let text = state_to_json(&st).unwrap();
    let again = state_from_json(story, &text).unwrap();
    assert_eq!(state_to_json(&again).unwrap(), text);
}

#[test]
fn restoring_on_an_unknown_node_fails() {
    let story = Arc::new(load_story_from_str(SAMPLE).unwrap());
    let snapshot = Snapshot { current_id: "attic".to_string(), vars: VarMap::new() };
    let err = StoryState::restore(story, snapshot).unwrap_err();
    match &err {
        StoryError::InvalidStory { code, message, path } => {
            assert_eq!(*code, "snapshot_unknown_node");
            assert_eq!(path, "/current_id");
            assert_eq!(message, "Snapshot references unknown node 'attic'");
        }
        other => panic!("not an invalid story: {:?}", other),
    }
    assert_eq!(
        err.describe(),
        "Invalid story: Snapshot references unknown node 'attic' (code: snapshot_unknown_node, path: /current_id)"
    );
}

#[test]
fn restored_variables_survive_a_reset() {
    let story = Arc::new(load_story_from_str(SAMPLE).unwrap());
    let mut st =
        state_from_json(story, r#"{"current_id":"door","vars":{"hasKey":true,"courage":5}}"#).unwrap();
    assert_eq!(texts(&st), vec!["Use key", "Force it", "Keep knocking"]);
    st.choose_at(2).unwrap();
    assert_eq!(st.vars().get("courage"), Some(&Value::Num(6)));
    st.reset();
    assert_eq!(st.current_node().id, "intro");
    assert_eq!(st.vars().get("hasKey"), Some(&Value::Bool(true)));
    assert_eq!(st.vars().get("courage"), Some(&Value::Num(5)));
    assert_eq!(st.vars().entries().len(), 2);
}

#[test]
fn reset_after_restore_applies_the_entry_effects_of_the_start() {
    let mut vars = VarMap::new();
    vars.insert("n".to_string(), Value::Num(1));
    vars.insert("fresh".to_string(), Value::Num(20));
    let story = Arc::new(counting_story());
    let mut st = StoryState::restore(story, Snapshot { current_id: "start".to_string(), vars }).unwrap();
    assert_eq!(st.vars().get("n"), Some(&Value::Num(1)));
    assert_eq!(st.vars().get("fresh"), Some(&Value::Num(20)));
    st.reset();
    assert_eq!(st.current_id(), "start");
    assert_eq!(st.vars().get("n"), Some(&Value::Num(13)));
    assert_eq!(st.vars().get("fresh"), Some(&Value::Num(23)));
    st.reset();
    assert_eq!(st.vars().get("fresh"), Some(&Value::Num(23)));
}

#[test]
fn a_cloned_session_goes_its_own_way() {
    let story = Arc::new(load_story_from_str(SAMPLE).unwrap());
    let mut st = new_state(story);
    st.choose_at(1).unwrap();
    let mut twin = st.clone();
    assert_eq!(twin.current_id(), "knock");
    assert_eq!(twin.vars().get("courage"), Some(&Value::Num(1)));
    twin.choose_at(0).unwrap();
    assert_eq!(twin.current_id(), "door");
    assert_eq!(st.current_id(), "knock");
    twin.reset();
    assert_eq!(twin.current_id(), "intro");
    assert_eq!(twin.vars().get("courage"), Some(&Value::Num(0)));
    assert_eq!(st.vars().get("courage"), Some(&Value::Num(1)));
}

#[test]
fn json_errors_are_story_errors() {
    let err = load_story_from_str("{").unwrap_err();
    assert_eq!(err.code(), None);
    assert!(err.describe().starts_with("JSON error: "));
    assert!(err.describe().len() > "JSON error: ".len());
}

#[test]
fn a_story_with_errors_starts_no_session() {
    let mut story = load_story_from_str(SAMPLE).unwrap();
    story.start = "nowhere".to_string();
    let diags = start_session(Arc::new(story)).err().unwrap();
    assert_eq!(diags.len(), 1);
    assert_eq!(diags[0].code, "start_not_found");
}

#[test]
fn entry_effects_treat_what_is_no_number_as_zero() {
    let node = StoryNode {
        id: "n".to_string(),
        text: String::new(),
        choices: vec![],
        set: vec![("flag".to_string(), Value::Bool(true))],
        inc: vec![("flag".to_string(), 4), ("word".to_string(), -1), ("count".to_string(), 2)],
        end: false,
    };
    let mut vars = VarMap::new();
    vars.insert("word".to_string(), Value::Str("seven".to_string()));
    vars.insert("count".to_string(), Value::Num(40));
    vars.insert("other".to_string(), Value::Str("kept".to_string()));
    apply_enter_effects(&mut vars, &node);
    assert_eq!(vars.get("flag"), Some(&Value::Num(4)));
    assert_eq!(vars.get("word"), Some(&Value::Num(-1)));
    assert_eq!(vars.get("count"), Some(&Value::Num(42)));
    assert_eq!(vars.get("other"), Some(&Value::Str("kept".to_string())));
}
