use skroll::ast::{File, Item, Stmt};
use skroll::compiler::{compile_to_document, lower, lower_node, CompileError};
use skroll::diagnostic::{format_with_source, Diagnostic, Level};
use skroll::parser::parse;
use skroll::schema::{StoryDoc, SCHEMA_URL, SCHEMA_VERSION};
use skroll::span::{compute_line_starts, Source, Span};
use skroll::text::{byte_len, chars_of, decimal, signed_decimal, substring};

#[test]
fn span_new_and_union() {
    let a = Span::new(3, 7);
    assert_eq!(a.start, 3);
    assert_eq!(a.end, 7);
    assert_eq!(a.union(Span::new(5, 12)), Span::new(3, 12));
    assert_eq!(a.union(Span::new(0, 4)), Span::new(0, 7));
    assert_eq!(a.union(Span::new(4, 5)), a);
    assert_eq!(a.union(Span::new(9, 10)), Span::new(3, 10));
    assert_eq!(a.union(a), a);
}

#[test]
fn line_starts_follow_each_line_feed() {
    assert_eq!(compute_line_starts(""), vec![0]);
    assert_eq!(compute_line_starts("abc"), vec![0]);
    assert_eq!(compute_line_starts("a\nbc\n\nd"), vec![0, 2, 5, 6]);
    assert_eq!(compute_line_starts("\u{e9}\n\u{1F600}\nx"), vec![0, 3, 8]);
    let src = Source::new("a\nbc\n\nd");
    assert_eq!(src.line_starts(), &vec![0, 2, 5, 6]);
    assert_eq!(src.line_starts(), &vec![0, 2, 5, 6]);
    assert_eq!(src.text(), "a\nbc\n\nd");
}

#[test]
fn line_col_is_one_based() {
    let src = Source::new("a\nbc\n\nd");
    assert_eq!(src.line_col(0), (1, 1));
    assert_eq!(src.line_col(1), (1, 2));
    assert_eq!(src.line_col(2), (2, 1));
    assert_eq!(src.line_col(4), (2, 3));
    assert_eq!(src.line_col(5), (3, 1));
    assert_eq!(src.line_col(6), (4, 1));
    assert_eq!(src.line_col(7), (4, 2));
    assert_eq!(src.line_col(100), (4, 95));
    let empty = Source::new("");
    assert_eq!(empty.line_col(0), (1, 1));
}

#[test]
fn diagnostic_error_has_no_notes() {
    let d = Diagnostic::error("E0001", Some(Span::new(1, 2)), "oops".to_string());
    assert_eq!(d.level, Level::Error);
    assert_eq!(d.code, "E0001");
    assert_eq!(d.message, "oops");
    assert_eq!(d.span, Some(Span::new(1, 2)));
    assert!(d.notes.is_empty());
}

#[test]
fn diagnostics_render_with_line_and_column() {
    let src = Source::new("one\ntwo three\n");
    let d = Diagnostic::error("E0003", Some(Span::new(8, 13)), "malformed choice".to_string());
    assert_eq!(format_with_source(&d, &src), "Error [E0003]: malformed choice at 2:5");
    let bare = Diagnostic::error("E0001", None, "no place".to_string());
    assert_eq!(format_with_source(&bare, &src), "Error [E0001]: no place");
    let mut warning = Diagnostic::error("W1", Some(Span::new(0, 1)), "w".to_string());
    warning.level = Level::Warning;
    assert_eq!(format_with_source(&warning, &src), "Warning [W1]: w at 1:1");
    warning.level = Level::Note;
    warning.span = None;
    assert_eq!(format_with_source(&warning, &src), "Note [W1]: w");
}

#[test]
fn text_helpers_give_exact_values() {
    assert_eq!(decimal(0), "0");
    assert_eq!(decimal(7), "7");
    assert_eq!(decimal(10), "10");
    assert_eq!(decimal(1234567890), "1234567890");
    assert_eq!(signed_decimal(0), "0");
    assert_eq!(signed_decimal(-1), "-1");
    assert_eq!(signed_decimal(i64::MAX), "9223372036854775807");
    assert_eq!(signed_decimal(i64::MIN), "-9223372036854775808");
    assert_eq!(byte_len("a\u{e9}\u{20AC}\u{1F600}"), 10);
    let chars = chars_of("h\u{e9}llo");
    assert_eq!(chars, vec!['h', '\u{e9}', 'l', 'l', 'o']);
    assert_eq!(substring(&chars, 1, 3), "\u{e9}l");
    assert_eq!(substring(&chars, 2, 2), "");
}

fn sample() -> &'static str {
    "// a story\n=== start ===\nYou wake up.  \n\n* Look around -> room\n* Wait { patience >= 2 } -> room // maybe\n{ set seen = 1 }\n=== room ===\nA room.\n-> start\n-> room\n"
}

#[test]
fn parses_sections_and_items() {
    let file = parse(sample()).unwrap();
    assert_eq!(file.sections.len(), 2);
    let start = &file.sections[0];
    assert_eq!(start.name, "start");
    assert_eq!(start.name_span, Span::new(15, 20));
    assert_eq!(start.header_span, Span::new(11, 24));
    assert_eq!(start.items.len(), 4);
    match &start.items[0] {
        Item::Line(l) => {
            assert_eq!(l.text, "You wake up.");
            assert_eq!(l.span, Span::new(25, 37));
        }
        other => panic!("not a line: {:?}", other),
    }
    match &start.items[1] {
        Item::Choice(c) => {
            assert_eq!(c.text, "Look around");
            assert_eq!(c.condition, None);
            assert_eq!(c.target, "room");
            assert_eq!(c.span, Span::new(41, 62));
        }
        other => panic!("not a choice: {:?}", other),
    }
    match &start.items[2] {
        Item::Choice(c) => {
            assert_eq!(c.text, "Wait");
            assert_eq!(c.condition, Some("patience >= 2".to_string()));
            assert_eq!(c.target, "room");
        }
        other => panic!("not a choice: {:?}", other),
    }
    match &start.items[3] {
        Item::Stmt(Stmt::Raw { text, .. }) => assert_eq!(text, "set seen = 1"),
        other => panic!("not a statement: {:?}", other),
    }
    let room = &file.sections[1];
    assert_eq!(room.name, "room");
    assert_eq!(room.items.len(), 3);
    match &room.items[1] {
        Item::Divert(d) => assert_eq!(d.target, "start"),
        other => panic!("not a divert: {:?}", other),
    }
}

#[test]
fn section_count_is_the_number_of_header_lines() {
    assert_eq!(parse("").unwrap().sections.len(), 0);
    assert_eq!(parse("\n\n// only a comment\n").unwrap().sections.len(), 0);
    assert_eq!(parse("=== a ===").unwrap().sections.len(), 1);
    assert_eq!(parse("=== a ===\n=== b ===\nx\n=== a ===\n").unwrap().sections.len(), 3);
    assert_eq!(File::default().sections.len(), 0);
}

fn codes(src: &str) -> Vec<&'static str> {
    parse(src).unwrap_err().iter().map(|d| d.code).collect()
}

#[test]
fn each_malformed_line_has_its_code() {
    assert_eq!(codes("\"open"), vec!["E0001"]);
    assert_eq!(codes("=== ==="), vec!["E0002"]);
    assert_eq!(codes("=== a"), vec!["E0002"]);
    assert_eq!(codes("=== 1 ==="), vec!["E0002"]);
    assert_eq!(codes("=== a === b"), vec!["E0002"]);
    assert_eq!(codes("=== a ===\n* no arrow"), vec!["E0003"]);
    assert_eq!(codes("=== a ===\n* x ->"), vec!["E0003"]);
    assert_eq!(codes("=== a ===\n* x -> 5"), vec!["E0003"]);
    assert_eq!(codes("=== a ===\n* x -> b c"), vec!["E0003"]);
    assert_eq!(codes("=== a ===\n* x { y } b"), vec!["E0003"]);
    assert_eq!(codes("=== a ===\n->"), vec!["E0004"]);
    assert_eq!(codes("=== a ===\n-> 7"), vec!["E0004"]);
    assert_eq!(codes("=== a ===\n-> b c"), vec!["E0004"]);
    assert_eq!(codes("=== a ===\n{ never closed"), vec!["E0005"]);
    assert_eq!(codes("=== a ===\n{"), vec!["E0005"]);
    assert_eq!(codes("=== a ===\n* x { y -> b"), vec!["E0005"]);
    assert_eq!(codes("early\n=== a ==="), vec!["E0006"]);
}

#[test]
fn parsing_goes_on_after_an_error() {
    let diags = parse("stray\n=== a ===\n->\n=== b\n* x\nfine\n").unwrap_err();
    let found: Vec<(&str, Option<Span>)> = diags.iter().map(|d| (d.code, d.span)).collect();
    assert_eq!(
        found,
        vec![
            ("E0006", Some(Span::new(0, 5))),
            ("E0004", Some(Span::new(16, 18))),
            ("E0002", Some(Span::new(19, 24))),
            ("E0003", Some(Span::new(25, 28))),
        ]
    );
    assert_eq!(diags[0].message, "content before the first section");
    assert_eq!(diags[1].message, "divert without a target");
    assert_eq!(diags[2].message, "malformed section header");
    assert_eq!(diags[3].message, "choice without `->`");
    assert!(diags.iter().all(|d| d.level == Level::Error));
}

#[test]
fn choice_text_may_be_empty_and_keeps_inner_spacing() {
    let file = parse("=== a ===\n* -> b\n*  go   now  {  x   ==  1 }  -> b\n").unwrap();
    match &file.sections[0].items[0] {
        Item::Choice(c) => {
            assert_eq!(c.text, "");
            assert_eq!(c.condition, None);
        }
        other => panic!("not a choice: {:?}", other),
    }
    match &file.sections[0].items[1] {
        Item::Choice(c) => {
            assert_eq!(c.text, "go   now");
            assert_eq!(c.condition, Some("x   ==  1".to_string()));
        }
        other => panic!("not a choice: {:?}", other),
    }
}

#[test]
fn empty_braces_are_an_empty_statement_or_condition() {
    let file = parse("=== a ===\n{}\n* x {} -> a\n").unwrap();
    match &file.sections[0].items[0] {
        Item::Stmt(Stmt::Raw { text, span }) => {
            assert_eq!(text, "");
            assert_eq!(*span, Span::new(10, 12));
        }
        other => panic!("not a statement: {:?}", other),
    }
    match &file.sections[0].items[1] {
        Item::Choice(c) => assert_eq!(c.condition, Some(String::new())),
        other => panic!("not a choice: {:?}", other),
    }
}

#[test]
fn lowering_keeps_lines_choices_and_the_first_divert() {
    let doc = compile_to_document(sample()).unwrap();
    assert_eq!(doc.schema_version, "1.0.0");
    assert_eq!(doc.schema_version, SCHEMA_VERSION);
    assert_eq!(doc.schema_url, SCHEMA_URL);
    assert_eq!(doc.entry, "start");
    assert!(doc.variables.is_empty());
    assert_eq!(doc.nodes.len(), 2);
    let start = &doc.nodes[0];
    assert_eq!(start.id, "start");
    assert_eq!(start.lines, vec!["You wake up.".to_string()]);
    assert_eq!(start.choices.len(), 2);
    assert_eq!(start.choices[0].text, "Look around");
    assert_eq!(start.choices[0].condition, None);
    assert_eq!(start.choices[0].target, "room");
    assert_eq!(start.choices[1].text, "Wait");
    assert_eq!(start.choices[1].condition, Some("patience >= 2".to_string()));
    assert_eq!(start.divert, None);
    let room = &doc.nodes[1];
    assert_eq!(room.id, "room");
    assert_eq!(room.lines, vec!["A room.".to_string()]);
    assert!(room.choices.is_empty());
    assert_eq!(room.divert, Some("start".to_string()));
}

#[test]
fn lowering_of_a_parsed_file_is_the_compilation() {
    let file = parse(sample()).unwrap();
    let lowered = lower(&file);
    let compiled = compile_to_document(sample()).unwrap();
    assert_eq!(format!("{:?}", lowered), format!("{:?}", compiled));
}

#[test]
fn compiling_twice_gives_the_same_document() {
    let a = compile_to_document(sample()).unwrap();
    let b = compile_to_document(sample()).unwrap();
    assert_eq!(format!("{:?}", a), format!("{:?}", b));
    let x = compile_to_document("=== a\n->\n").unwrap_err();
    let y = compile_to_document("=== a\n->\n").unwrap_err();
    assert_eq!(format!("{:?}", x), format!("{:?}", y));
}

#[test]
fn compilation_fails_with_the_diagnostics_and_no_document() {
    let diags = compile_to_document("=== a ===\n* broken\n").unwrap_err();
    assert_eq!(diags.len(), 1);
    assert_eq!(diags[0].code, "E0003");
    let diags = compile_to_document("\"").unwrap_err();
    assert_eq!(diags[0].code, "E0001");
    assert_eq!(diags[0].span, Some(Span::new(0, 1)));
}

#[test]
fn missing_entry_is_left_to_validation() {
    let doc = compile_to_document("=== elsewhere ===\nText\n").unwrap();
    assert_eq!(doc.entry, "start");
    assert_eq!(doc.nodes.len(), 1);
    assert_eq!(doc.nodes[0].id, "elsewhere");
}

#[test]
fn empty_document_has_the_format_and_the_entry() {
    let doc = StoryDoc::empty_with_entry("begin".to_string());
    assert_eq!(doc.schema_version, "1.0.0");
    assert_eq!(doc.schema_url, "https://example.com/schemas/skroll-story-1.0.0.json");
    assert_eq!(doc.entry, "begin");
    assert!(doc.variables.is_empty());
    assert!(doc.nodes.is_empty());
}

#[test]
fn compile_errors_describe_themselves() {
    assert_eq!(CompileError::Internal("boom".to_string()).describe(), "internal: boom");
    let io = std::io::Error::new(std::io::ErrorKind::Other, "disk");
    assert_eq!(CompileError::Io(io).describe(), "io error: disk");
}

#[test]
fn a_section_lowers_to_its_node() {
    let file = parse("=== only ===\n-> a\none\n{ note }\n-> b\ntwo\n* c -> d\n").unwrap();
    let node = lower_node(&file.sections[0]);
    assert_eq!(node.id, "only");
    assert_eq!(node.lines, vec!["one".to_string(), "two".to_string()]);
    assert_eq!(node.choices.len(), 1);
    assert_eq!(node.choices[0].target, "d");
    assert_eq!(node.divert, Some("a".to_string()));
}

#[test]
fn a_line_of_white_space_alone_is_blank() {
    let file = parse("\u{c}\n=== a ===\n \u{a0} \none \u{3000}\n\u{b}\n").unwrap();
    assert_eq!(file.sections.len(), 1);
    assert_eq!(file.sections[0].items.len(), 1);
    match &file.sections[0].items[0] {
        Item::Line(l) => {
            assert_eq!(l.text, "one");
            assert_eq!(l.span, Span::new(17, 20));
        }
        other => panic!("not a line: {:?}", other),
    }
}
