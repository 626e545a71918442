use skroll::diagnostic::Diagnostic;
use skroll::parser::debug_token;
use skroll::span::Span;
use skroll::text::{char_table, chars_of};
use skroll::tokens::{lex, lex_chars, Lexeme, Token};

#[test]
fn lexes_basic_constructs() {
    let src = r#"=== start ===
Hello, Skroll!
// comment
* Continue -> end
"#;
    let dump = skroll::parser::debug_lex(src);
    assert!(dump.contains("SectionEqEqEq"));
    assert!(dump.contains("Star"));
    assert!(dump.contains("Arrow"));
    assert!(dump.contains("Newline"));
}

#[test]
fn dump_is_exact_for_a_header() {
    let dump = skroll::parser::debug_lex("=== start ===\n");
    assert_eq!(
        dump,
        "SectionEqEqEq@0..3\nIdent(\"start\")@4..9\nSectionEqEqEq@10..13\nNewline@13..14"
    );
}

#[test]
fn dump_quotes_and_escapes_texts() {
    let dump = skroll::parser::debug_lex("\"a\\b\"");
    assert_eq!(dump, "String(\"a\\\\b\")@0..5");
}

#[test]
fn dump_of_nothing_is_empty() {
    assert_eq!(skroll::parser::debug_lex(""), "");
    assert_eq!(skroll::parser::debug_lex("  \t\r "), "");
}

#[test]
fn dump_reports_the_lexical_error() {
    let dump = skroll::parser::debug_lex("say \"never closed");
    assert_eq!(dump, "LEX ERROR [E0001] unterminated string literal @ 4..17");
}

#[test]
fn lex_failure_covers_every_shape() {
    assert_eq!(skroll::parser::lex_failure(&vec![]), "LEX ERROR: <unknown>");
    let without = Diagnostic::error("E0001", None, "bad".to_string());
    assert_eq!(skroll::parser::lex_failure(&vec![without]), "LEX ERROR [E0001] bad");
    let with = Diagnostic::error("E0001", Some(Span::new(2, 5)), "bad".to_string());
    assert_eq!(skroll::parser::lex_failure(&vec![with]), "LEX ERROR [E0001] bad @ 2..5");
}

#[test]
fn debug_token_prints_names_numbers_and_texts() {
    assert_eq!(debug_token(&Token::Star, ""), "Star");
    assert_eq!(debug_token(&Token::Number(-12), ""), "Number(-12)");
    assert_eq!(debug_token(&Token::Number(i64::MIN), ""), "Number(-9223372036854775808)");
    assert_eq!(debug_token(&Token::Ident("x".to_string()), "\"x\""), "Ident(\"x\")");
    assert_eq!(debug_token(&Token::Text("t".to_string()), "\"t\""), "Text(\"t\")");
}

fn kinds(src: &str) -> Vec<Token> {
    lex(src).unwrap().into_iter().map(|(t, _)| t).collect()
}

#[test]
fn lexes_each_token_kind() {
    assert_eq!(
        kinds("=== -> { } * == != >= <= > < ="),
        vec![
            Token::SectionEqEqEq,
            Token::Arrow,
            Token::LBrace,
            Token::RBrace,
            Token::Star,
            Token::EqEq,
            Token::Ne,
            Token::Ge,
            Token::Le,
            Token::Gt,
            Token::Lt,
            Token::Eq,
        ]
    );
    assert_eq!(
        kinds("name_1 \"two words\" 42\n// note"),
        vec![
            Token::Ident("name_1".to_string()),
            Token::String("two words".to_string()),
            Token::Number(42),
            Token::Newline,
            Token::Comment,
        ]
    );
}

#[test]
fn longer_prefix_wins() {
    assert_eq!(kinds("===="), vec![Token::SectionEqEqEq, Token::Eq]);
    assert_eq!(kinds("====="), vec![Token::SectionEqEqEq, Token::EqEq]);
    assert_eq!(kinds(">=="), vec![Token::Ge, Token::Eq]);
    assert_eq!(kinds("->>"), vec![Token::Arrow, Token::Gt]);
}

#[test]
fn free_text_runs_to_the_end_of_the_line_and_is_trimmed() {
    let toks = lex("Hello, Skroll!  \t\r\nnext").unwrap();
    assert_eq!(toks.len(), 4);
    assert_eq!(toks[0], (Token::Ident("Hello".to_string()), Span::new(0, 5)));
    assert_eq!(toks[1], (Token::Text(", Skroll!".to_string()), Span::new(5, 18)));
    assert_eq!(toks[2], (Token::Newline, Span::new(18, 19)));
    assert_eq!(toks[3], (Token::Ident("next".to_string()), Span::new(19, 23)));
}

#[test]
fn comment_stops_before_the_line_feed() {
    let toks = lex("// one\n// two").unwrap();
    assert_eq!(
        toks,
        vec![
            (Token::Comment, Span::new(0, 6)),
            (Token::Newline, Span::new(6, 7)),
            (Token::Comment, Span::new(7, 13)),
        ]
    );
}

#[test]
fn spans_count_bytes_not_characters() {
    let toks = lex("\u{e9}t\u{e9} \u{1F600}! x").unwrap();
    assert_eq!(toks.len(), 1);
    assert_eq!(toks[0].0, Token::Text("\u{e9}t\u{e9} \u{1F600}! x".to_string()));
    assert_eq!(toks[0].1, Span::new(0, 13));
    let toks = lex("\"\u{e9}\" a").unwrap();
    assert_eq!(toks[0], (Token::String("\u{e9}".to_string()), Span::new(0, 4)));
    assert_eq!(toks[1], (Token::Ident("a".to_string()), Span::new(5, 6)));
}

#[test]
fn string_has_no_escapes_and_may_span_lines() {
    let toks = lex("\"a\\\" b").unwrap();
    assert_eq!(toks[0].0, Token::String("a\\".to_string()));
    assert_eq!(toks[1].0, Token::Ident("b".to_string()));
    let toks = lex("\"one\ntwo\"").unwrap();
    assert_eq!(toks, vec![(Token::String("one\ntwo".to_string()), Span::new(0, 9))]);
}

#[test]
fn unterminated_string_is_an_error_with_its_span() {
    let diags = lex("ok \"open\nmore").unwrap_err();
    assert_eq!(diags.len(), 1);
    assert_eq!(diags[0].code, "E0001");
    assert_eq!(diags[0].level, skroll::diagnostic::Level::Error);
    assert_eq!(diags[0].message, "unterminated string literal");
    assert_eq!(diags[0].span, Some(Span::new(3, 13)));
    assert!(diags[0].notes.is_empty());
}

#[test]
fn integers_up_to_the_largest_are_numbers() {
    assert_eq!(kinds("0 007 9223372036854775807"), vec![
        Token::Number(0),
        Token::Number(7),
        Token::Number(i64::MAX),
    ]);
}

#[test]
fn integer_out_of_range_is_an_error() {
    let diags = lex("x 9223372036854775808 y").unwrap_err();
    assert_eq!(diags.len(), 1);
    assert_eq!(diags[0].code, "E0001");
    assert_eq!(diags[0].message, "integer literal out of range");
    assert_eq!(diags[0].span, Some(Span::new(2, 21)));
}

#[test]
fn digits_then_letters_are_two_tokens() {
    assert_eq!(kinds("12ab"), vec![Token::Number(12), Token::Ident("ab".to_string())]);
    assert_eq!(kinds("-5"), vec![Token::Text("-5".to_string())]);
}

#[test]
fn lexing_twice_gives_the_same_tokens() {
    let src = "=== a ===\n* go { x >= 2 } -> b\n";
    assert_eq!(lex(src).unwrap(), lex(src).unwrap());
}

#[test]
fn lexemes_count_characters() {
    let chars = chars_of("\u{e9}\u{e9} \"\u{1F600}\"  end");
    let lexemes = lex_chars(&chars).unwrap();
    assert_eq!(
        lexemes,
        vec![
            Lexeme { token: Token::Text("\u{e9}\u{e9} \"\u{1F600}\"  end".to_string()), start: 0, end: 11 },
        ]
    );
    let chars = chars_of("a \"\u{1F600}\" b");
    let lexemes = lex_chars(&chars).unwrap();
    assert_eq!(
        lexemes,
        vec![
            Lexeme { token: Token::Ident("a".to_string()), start: 0, end: 1 },
            Lexeme { token: Token::String("\u{1F600}".to_string()), start: 2, end: 5 },
            Lexeme { token: Token::Ident("b".to_string()), start: 6, end: 7 },
        ]
    );
    assert_eq!(lex_chars(&chars_of("x \"y")).unwrap_err(), (2, 4, "unterminated string literal"));
    assert_eq!(lex_chars(&chars_of("99999999999999999999")).unwrap_err(), (0, 20, "integer literal out of range"));
}

#[test]
fn character_table_gives_the_byte_offset_of_each_index() {
    let (chars, offsets) = char_table("a\u{e9}\u{20AC}\u{1F600}z");
    assert_eq!(chars, vec!['a', '\u{e9}', '\u{20AC}', '\u{1F600}', 'z']);
    assert_eq!(offsets, vec![0, 1, 3, 6, 10, 11]);
    let (chars, offsets) = char_table("");
    assert!(chars.is_empty());
    assert_eq!(offsets, vec![0]);
}

#[test]
fn free_text_loses_every_white_space_at_its_end() {
    let toks = lex(".\u{c}").unwrap();
    assert_eq!(toks, vec![(Token::Text(".".to_string()), Span::new(0, 2))]);
    let toks = lex("? \u{a0}\u{3000}\u{2003}\u{b}\nx").unwrap();
    assert_eq!(toks[0], (Token::Text("?".to_string()), Span::new(0, 11)));
    assert_eq!(toks[1], (Token::Newline, Span::new(11, 12)));
    let toks = lex("\u{a0}lead stays\u{a0}").unwrap();
    assert_eq!(toks, vec![(Token::Text("\u{a0}lead stays".to_string()), Span::new(0, 14))]);
    for (tok, _) in lex("a, b \u{85}\n\u{c}\n!\t \r\n").unwrap() {
        if let Token::Text(text) = tok {
            assert_eq!(text, text.trim_end());
        }
    }
}

#[test]
fn white_space_that_is_no_blank_makes_an_empty_text() {
    let toks = lex("\u{c}\n").unwrap();
    assert_eq!(toks, vec![(Token::Text(String::new()), Span::new(0, 1)), (Token::Newline, Span::new(1, 2))]);
    let toks = lex("a \u{c} ").unwrap();
    assert_eq!(toks[0].0, Token::Ident("a".to_string()));
    assert_eq!(toks[1], (Token::Text(String::new()), Span::new(2, 4)));
}

#[test]
fn spans_lie_in_order_within_the_text() {
    let src = "=== a ===\nsome text, here \u{a0}\n* go {x >= 1} -> b // c\n\"s\" 12\n";
    let toks = lex(src).unwrap();
    let mut last = 0;
    for (_, span) in &toks {
        assert!(last <= span.start);
        assert!(span.start < span.end);
        assert!(span.end <= src.len());
        last = span.end;
    }
    assert_eq!(toks.iter().filter(|(t, _)| *t == Token::Newline).count(), 4);
}
