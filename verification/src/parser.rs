//! The parser: lexemes, line by line, to a file of sections.
//!
//! A line is the run of lexemes up to the next line feed; a comment at its
//! end is dropped. By its first token a line is a section header (`===`), a
//! choice (`*`), a divert (`->`), a statement (`{`) or narration.

use crate::ast::{sections_view, items_view, Choice, Divert, File, Item, Line, Section, SpecChoice, SpecDivert, SpecFile, SpecItem, SpecLine, SpecSection, SpecStmt, Stmt};
use crate::diagnostic::{diagnostics_view, Diagnostic, Diagnostics, SpecDiagnostic};
use crate::span::Span;
use crate::text::{byte_pos, char_table, decimal, decimal_spec, signed_decimal, signed_decimal_spec, substring, trim_end_at, trim_trail};
use crate::tokens::{lemma_lex_from_ordered, lex, lex_chars, lex_diagnostic, lex_from, lexemes_ordered, lexemes_view, span_at, spec_lex, tokens_view, Lexeme, SpecLexeme, SpecToken, Token};
use vstd::prelude::*;
use vstd::string::*;

verus! {

/// The kinds of token that the parser looks ahead for.
#[derive(Clone, Copy)]
pub enum TokenClass {
    Newline,
    /// `{` or `->`: what ends the text of a choice.
    BraceOrArrow,
    /// `}`
    RBrace,
}

/// Whether a token is of a class.
pub open spec fn token_in(class: TokenClass, t: SpecToken) -> bool {
    match class {
        TokenClass::Newline => t is Newline,
        TokenClass::BraceOrArrow => t is LBrace || t is Arrow,
        TokenClass::RBrace => t is RBrace,
    }
}

/// The index of the first lexeme of `class` in `toks[i..hi]`, or `hi`.
pub open spec fn find_token(toks: Seq<SpecLexeme>, i: int, hi: int, class: TokenClass) -> int
    decreases hi - i,
{
    if 0 <= i < hi && !token_in(class, toks[i].token) {
        find_token(toks, i + 1, hi, class)
    } else {
        i
    }
}

/// `find_token` stops within the range, at the first lexeme of the class.
pub proof fn lemma_find_token(toks: Seq<SpecLexeme>, i: int, hi: int, class: TokenClass)
    requires
        0 <= i <= hi <= toks.len(),
    ensures
        i <= find_token(toks, i, hi, class) <= hi,
        forall|k: int| i <= k < find_token(toks, i, hi, class) ==> !token_in(class, (#[trigger] toks[k]).token),
        find_token(toks, i, hi, class) < hi ==> token_in(class, toks[find_token(toks, i, hi, class)].token),
    decreases hi - i,
{
    if i < hi && !token_in(class, toks[i].token) {
        lemma_find_token(toks, i + 1, hi, class);
    }
}

proof fn lemma_find_token_is(toks: Seq<SpecLexeme>, i: int, e: int, hi: int, class: TokenClass)
    requires
        0 <= i <= e <= hi <= toks.len(),
        forall|k: int| i <= k < e ==> !token_in(class, (#[trigger] toks[k]).token),
        e < hi ==> token_in(class, toks[e].token),
    ensures
        find_token(toks, i, hi, class) == e,
    decreases e - i,
{
    if i < e {
        lemma_find_token_is(toks, i + 1, e, hi, class);
    }
}

/// Where the text of the lexemes `toks[a..b]` ends in the source: at the end
/// of lexeme `b - 1`, before the white space that a free text covers at the
/// end of its line.
pub open spec fn text_end(src: Seq<char>, toks: Seq<SpecLexeme>, a: int, b: int) -> int
    recommends
        a < b,
{
    trim_trail(src, toks[a].start, toks[b - 1].end)
}

/// The source text from the start of lexeme `a` to the end of lexeme `b - 1`,
/// without white space at its end; empty where the range holds no lexeme.
pub open spec fn text_between(src: Seq<char>, toks: Seq<SpecLexeme>, a: int, b: int) -> Seq<char> {
    if a < b {
        src.subrange(toks[a].start, text_end(src, toks, a, b))
    } else {
        Seq::empty()
    }
}

/// The span in bytes of the text of the lexemes `toks[a..b]`.
pub open spec fn span_between(src: Seq<char>, toks: Seq<SpecLexeme>, a: int, b: int) -> Span
    recommends
        a < b,
{
    span_at(src, toks[a].start, text_end(src, toks, a, b))
}

/// What one line of lexemes is.
pub enum LineKind {
    /// No lexeme, a comment alone, or white space alone.
    Blank,
    /// A section header; the section has no items yet.
    Header(SpecSection),
    Item(SpecItem),
    /// A malformed line, with what is reported of it.
    Bad(SpecDiagnostic),
}

/// The malformed line that is reported as an error with the given parts.
pub open spec fn bad_line(code: Seq<char>, span: Span, message: Seq<char>) -> LineKind {
    LineKind::Bad(Diagnostic::spec_error(code, Some(span), message))
}

/// A choice line `toks[lo..hi]`, which starts with `*`: the display text up
/// to the first `{` or `->`, a condition between braces where a `{` comes
/// first, then `->` and the target, with which the line ends.
pub open spec fn parse_choice(src: Seq<char>, toks: Seq<SpecLexeme>, lo: int, hi: int) -> LineKind
    recommends
        0 <= lo < hi <= toks.len(),
{
    let span = span_between(src, toks, lo, hi);
    let p = find_token(toks, lo + 1, hi, TokenClass::BraceOrArrow);
    let text = text_between(src, toks, lo + 1, p);
    if p >= hi {
        bad_line("E0003"@, span, "choice without `->`"@)
    } else {
        let q = find_token(toks, p + 1, hi, TokenClass::RBrace);
        if toks[p].token is LBrace && q >= hi {
            bad_line("E0005"@, span, "unterminated brace"@)
        } else {
            let condition = if toks[p].token is LBrace {
                Some(text_between(src, toks, p + 1, q))
            } else {
                None
            };
            let arrow = if toks[p].token is LBrace {
                q + 1
            } else {
                p
            };
            if arrow + 2 == hi && toks[arrow].token is Arrow {
                match toks[arrow + 1].token {
                    SpecToken::Ident(target) => LineKind::Item(
                        SpecItem::Choice(SpecChoice { text, condition, target, span }),
                    ),
                    _ => bad_line("E0003"@, span, "malformed choice"@),
                }
            } else {
                bad_line("E0003"@, span, "malformed choice"@)
            }
        }
    }
}

/// The line made of the lexemes `toks[lo..hi]`, by its first token. A line
/// that starts with a free text of white space alone is blank.
pub open spec fn parse_line(src: Seq<char>, toks: Seq<SpecLexeme>, lo: int, hi: int) -> LineKind
    recommends
        0 <= lo <= hi <= toks.len(),
{
    if lo >= hi || (toks[lo].token is Text && text_end(src, toks, lo, hi) <= toks[lo].start) {
        LineKind::Blank
    } else {
        let span = span_between(src, toks, lo, hi);
        match toks[lo].token {
            SpecToken::SectionEqEqEq => {
                if hi - lo == 3 && toks[lo + 2].token is SectionEqEqEq {
                    match toks[lo + 1].token {
                        SpecToken::Ident(name) => LineKind::Header(
                            SpecSection {
                                name,
                                name_span: span_between(src, toks, lo + 1, lo + 2),
                                header_span: span,
                                items: Seq::empty(),
                            },
                        ),
                        _ => bad_line("E0002"@, span, "malformed section header"@),
                    }
                } else {
                    bad_line("E0002"@, span, "malformed section header"@)
                }
            },
            SpecToken::Star => parse_choice(src, toks, lo, hi),
            SpecToken::Arrow => {
                if hi - lo == 2 {
                    match toks[lo + 1].token {
                        SpecToken::Ident(target) => LineKind::Item(SpecItem::Divert(SpecDivert { target, span })),
                        _ => bad_line("E0004"@, span, "divert without a target"@),
                    }
                } else {
                    bad_line("E0004"@, span, "divert without a target"@)
                }
            },
            SpecToken::LBrace => {
                if hi - lo >= 2 && toks[hi - 1].token is RBrace {
                    LineKind::Item(
                        SpecItem::Stmt(SpecStmt::Raw { text: text_between(src, toks, lo + 1, hi - 1), span }),
                    )
                } else {
                    bad_line("E0005"@, span, "unterminated brace"@)
                }
            },
            _ => LineKind::Item(SpecItem::Line(SpecLine { text: text_between(src, toks, lo, hi), span })),
        }
    }
}

/// The span of an item.
pub open spec fn item_span(item: SpecItem) -> Span {
    match item {
        SpecItem::Line(l) => l.span,
        SpecItem::Choice(c) => c.span,
        SpecItem::Divert(d) => d.span,
        SpecItem::Stmt(SpecStmt::Raw { text, span }) => span,
    }
}

/// The sections built and the diagnostics gathered so far.
pub struct ParseState {
    pub sections: Seq<SpecSection>,
    pub diags: Seq<SpecDiagnostic>,
}

/// The state after one more line: a header opens a section, an item joins
/// the section that is open (and is reported where none is), a malformed
/// line is reported.
pub open spec fn parse_step(state: ParseState, line: LineKind) -> ParseState {
    match line {
        LineKind::Blank => state,
        LineKind::Header(section) => ParseState { sections: state.sections.push(section), diags: state.diags },
        LineKind::Item(item) => {
            if state.sections.len() == 0 {
                ParseState {
                    sections: state.sections,
                    diags: state.diags.push(
                        Diagnostic::spec_error("E0006"@, Some(item_span(item)), "content before the first section"@),
                    ),
                }
            } else {
                let last = state.sections.last();
                ParseState {
                    sections: state.sections.drop_last().push(
                        SpecSection {
                            name: last.name,
                            name_span: last.name_span,
                            header_span: last.header_span,
                            items: last.items.push(item),
                        },
                    ),
                    diags: state.diags,
                }
            }
        },
        LineKind::Bad(d) => ParseState { sections: state.sections, diags: state.diags.push(d) },
    }
}

/// Where the content of the line `toks[lo..hi]` ends: before a comment that
/// is its last lexeme, else at `hi`.
pub open spec fn content_end(toks: Seq<SpecLexeme>, lo: int, hi: int) -> int {
    if lo < hi && toks[hi - 1].token is Comment {
        hi - 1
    } else {
        hi
    }
}

/// The state after the lines that start at lexeme `i` and after it.
pub open spec fn parse_lines(src: Seq<char>, toks: Seq<SpecLexeme>, i: int, state: ParseState) -> ParseState
    decreases toks.len() + 1 - i,
    via parse_lines_decreases
{
    if 0 <= i < toks.len() {
        let hi = find_token(toks, i, toks.len() as int, TokenClass::Newline);
        let line = parse_line(src, toks, i, content_end(toks, i, hi));
        parse_lines(src, toks, hi + 1, parse_step(state, line))
    } else {
        state
    }
}

#[via_fn]
proof fn parse_lines_decreases(src: Seq<char>, toks: Seq<SpecLexeme>, i: int, state: ParseState) {
    if 0 <= i < toks.len() {
        lemma_find_token(toks, i, toks.len() as int, TokenClass::Newline);
    }
}

/// The file that a sequence of lexemes makes, where no line is reported;
/// else every diagnostic, in the order of the lines.
pub open spec fn spec_parse_tokens(src: Seq<char>, toks: Seq<SpecLexeme>) -> Result<SpecFile, Seq<SpecDiagnostic>> {
    let end = parse_lines(src, toks, 0, ParseState { sections: Seq::empty(), diags: Seq::empty() });
    if end.diags.len() == 0 {
        Ok(SpecFile { sections: end.sections })
    } else {
        Err(end.diags)
    }
}

/// The file that a source text makes: it is lexed, then parsed. A lexical
/// error is the only diagnostic where there is one.
pub open spec fn spec_parse(src: Seq<char>) -> Result<SpecFile, Seq<SpecDiagnostic>> {
    match lex_from(src, 0) {
        Ok(toks) => spec_parse_tokens(src, toks),
        Err(e) => Err(seq![lex_diagnostic(src, e)]),
    }
}

/// Where the line that starts at lexeme `i` stops: at the next line feed, or
/// at the end of the lexemes.
pub open spec fn line_stop(toks: Seq<SpecLexeme>, i: int) -> int {
    find_token(toks, i, toks.len() as int, TokenClass::Newline)
}

/// The line that starts at lexeme `i`.
pub open spec fn line_at(src: Seq<char>, toks: Seq<SpecLexeme>, i: int) -> LineKind {
    parse_line(src, toks, i, content_end(toks, i, line_stop(toks, i)))
}

/// Whether every line from lexeme `i` on is well formed: blank, a section
/// header, or a line, choice, divert or statement inside a section. `open`
/// says whether a section has been opened before lexeme `i`.
pub open spec fn well_formed_from(src: Seq<char>, toks: Seq<SpecLexeme>, i: int, open: bool) -> bool
    decreases toks.len() + 1 - i,
    via well_formed_from_decreases
{
    if 0 <= i < toks.len() {
        match line_at(src, toks, i) {
            LineKind::Blank => well_formed_from(src, toks, line_stop(toks, i) + 1, open),
            LineKind::Header(_) => well_formed_from(src, toks, line_stop(toks, i) + 1, true),
            LineKind::Item(_) => open && well_formed_from(src, toks, line_stop(toks, i) + 1, open),
            LineKind::Bad(_) => false,
        }
    } else {
        true
    }
}

#[via_fn]
proof fn well_formed_from_decreases(src: Seq<char>, toks: Seq<SpecLexeme>, i: int, open: bool) {
    if 0 <= i < toks.len() {
        lemma_find_token(toks, i, toks.len() as int, TokenClass::Newline);
    }
}

/// The number of lines from lexeme `i` on that start with the section
/// delimiter `===`.
pub open spec fn delimited_lines(toks: Seq<SpecLexeme>, i: int) -> nat
    decreases toks.len() + 1 - i,
    via delimited_lines_decreases
{
    if 0 <= i < toks.len() {
        let rest = delimited_lines(toks, line_stop(toks, i) + 1);
        if toks[i].token is SectionEqEqEq {
            rest + 1
        } else {
            rest
        }
    } else {
        0
    }
}

#[via_fn]
proof fn delimited_lines_decreases(toks: Seq<SpecLexeme>, i: int) {
    if 0 <= i < toks.len() {
        lemma_find_token(toks, i, toks.len() as int, TokenClass::Newline);
    }
}

/// Whether a source text lexes, and every line of it is well formed.
pub open spec fn well_formed_source(src: Seq<char>) -> bool {
    lex_from(src, 0) matches Ok(toks) && well_formed_from(src, toks, 0, false)
}

proof fn lemma_parse_lines_well_formed(src: Seq<char>, toks: Seq<SpecLexeme>, i: int, state: ParseState)
    requires
        0 <= i,
    ensures
        ({
            let end = parse_lines(src, toks, i, state);
            &&& end.diags.len() >= state.diags.len()
            &&& end.diags.len() == state.diags.len() <==> well_formed_from(src, toks, i, state.sections.len() > 0)
            &&& end.diags.len() == state.diags.len() ==> end.sections.len() == state.sections.len()
                + delimited_lines(toks, i)
        }),
    decreases toks.len() + 1 - i,
{
    if i < toks.len() {
        lemma_find_token(toks, i, toks.len() as int, TokenClass::Newline);
        let line = line_at(src, toks, i);
        let next = parse_step(state, line);
        lemma_parse_lines_well_formed(src, toks, line_stop(toks, i) + 1, next);
        let hi = content_end(toks, i, line_stop(toks, i));
        if toks[i].token is SectionEqEqEq {
            assert(i < hi);
            assert(line is Header || line is Bad);
        } else {
            assert(!(line is Header));
        }
    }
}

/// A source text parses without a diagnostic exactly when it lexes and all
/// its lines are well formed; the file then has one section for each line
/// that starts with the section delimiter.
pub proof fn lemma_well_formed_source_parses(src: Seq<char>)
    ensures
        spec_parse(src) is Ok <==> well_formed_source(src),
        spec_parse(src) matches Ok(file) ==> file.sections.len() == delimited_lines(lex_from(src, 0)->Ok_0, 0),
{
    if let Ok(toks) = lex_from(src, 0) {
        lemma_parse_lines_well_formed(src, toks, 0, ParseState { sections: Seq::empty(), diags: Seq::empty() });
    }
}

fn token_is(class: TokenClass, t: &Token) -> (b: bool)
    ensures
        b == token_in(class, t@),
{
    match class {
        TokenClass::Newline => matches!(t, Token::Newline),
        TokenClass::BraceOrArrow => matches!(t, Token::LBrace) || matches!(t, Token::Arrow),
        TokenClass::RBrace => matches!(t, Token::RBrace),
    }
}

fn find_tok(toks: &Vec<Lexeme>, i: usize, hi: usize, class: TokenClass) -> (e: usize)
    requires
        i <= hi <= toks.len(),
    ensures
        e == find_token(lexemes_view(toks@), i as int, hi as int, class),
        i <= e <= hi,
{
    let mut e: usize = i;
    while e < hi && !token_is(class, &toks[e].token)
        invariant
            i <= e <= hi <= toks.len(),
            forall|k: int| i <= k < e ==> !token_in(class, (#[trigger] lexemes_view(toks@)[k]).token),
        decreases hi - e,
    {
        e = e + 1;
    }
    proof {
        lemma_find_token_is(lexemes_view(toks@), i as int, e as int, hi as int, class);
    }
    e
}

/// What the parser works on: the characters of the source, the byte offset
/// of each character index, and lexemes that lie in order within the source.
pub open spec fn parse_input(chars: Seq<char>, offsets: Seq<usize>, toks: Seq<Lexeme>) -> bool {
    &&& offsets.len() == chars.len() + 1
    &&& forall|k: int| 0 <= k <= chars.len() ==> #[trigger] offsets[k] == byte_pos(chars, k)
    &&& lexemes_ordered(chars, lexemes_view(toks), 0)
}

fn text_of(chars: &Vec<char>, toks: &Vec<Lexeme>, a: usize, b: usize) -> (s: String)
    requires
        lexemes_ordered(chars@, lexemes_view(toks@), 0),
        a <= b <= toks.len(),
    ensures
        s@ == text_between(chars@, lexemes_view(toks@), a as int, b as int),
{
    if a < b {
        let end = text_end_of(chars, toks, a, b);
        substring(chars, toks[a].start, end)
    } else {
        String::new()
    }
}

fn text_end_of(chars: &Vec<char>, toks: &Vec<Lexeme>, a: usize, b: usize) -> (e: usize)
    requires
        lexemes_ordered(chars@, lexemes_view(toks@), 0),
        a < b <= toks.len(),
    ensures
        e == text_end(chars@, lexemes_view(toks@), a as int, b as int),
        toks[a as int].start <= e <= chars.len(),
{
    assert(lexemes_view(toks@)[a as int].start < lexemes_view(toks@)[a as int].end);
    assert(a < b - 1 ==> lexemes_view(toks@)[a as int].end <= lexemes_view(toks@)[b - 1].start);
    assert(lexemes_view(toks@)[b - 1].end <= chars.len());
    trim_end_at(chars, toks[a].start, toks[b - 1].end)
}

fn span_of(chars: &Vec<char>, offsets: &Vec<usize>, toks: &Vec<Lexeme>, a: usize, b: usize) -> (r: Span)
    requires
        parse_input(chars@, offsets@, toks@),
        a < b <= toks.len(),
    ensures
        r == span_between(chars@, lexemes_view(toks@), a as int, b as int),
{
    let end = text_end_of(chars, toks, a, b);
    Span::new(offsets[toks[a].start], offsets[end])
}

/// What one line of lexemes is, as the parser hands it on.
pub enum ParsedLine {
    Blank,
    Header(Section),
    Item(Item),
    Bad(Diagnostic),
}

impl View for ParsedLine {
    type V = LineKind;

    open spec fn view(&self) -> LineKind {
        match self {
            ParsedLine::Blank => LineKind::Blank,
            ParsedLine::Header(s) => LineKind::Header(s@),
            ParsedLine::Item(i) => LineKind::Item(i@),
            ParsedLine::Bad(d) => LineKind::Bad(d@),
        }
    }
}

fn bad(code: &'static str, span: Span, message: &'static str) -> (r: ParsedLine)
    ensures
        r@ == bad_line(code@, span, message@),
{
    ParsedLine::Bad(Diagnostic::error(code, Some(span), String::from_str(message)))
}

fn parse_choice_line(chars: &Vec<char>, offsets: &Vec<usize>, toks: &Vec<Lexeme>, lo: usize, hi: usize) -> (r:
    ParsedLine)
    requires
        parse_input(chars@, offsets@, toks@),
        lo < hi <= toks.len(),
    ensures
        r@ == parse_choice(chars@, lexemes_view(toks@), lo as int, hi as int),
{
    let span = span_of(chars, offsets, toks, lo, hi);
    let p = find_tok(toks, lo + 1, hi, TokenClass::BraceOrArrow);
    if p >= hi {
        return bad("E0003", span, "choice without `->`");
    }
    let text = text_of(chars, toks, lo + 1, p);
    let braced = matches!(toks[p].token, Token::LBrace);
    let q = find_tok(toks, p + 1, hi, TokenClass::RBrace);
    if braced && q >= hi {
        return bad("E0005", span, "unterminated brace");
    }
    let condition = if braced {
        Some(text_of(chars, toks, p + 1, q))
    } else {
        None
    };
    let arrow = if braced {
        q + 1
    } else {
        p
    };
    if arrow < hi && hi - arrow == 2 && matches!(toks[arrow].token, Token::Arrow) {
        match &toks[arrow + 1].token {
            Token::Ident(target) => ParsedLine::Item(
                Item::Choice(Choice { text, condition, target: target.clone(), span }),
            ),
            _ => bad("E0003", span, "malformed choice"),
        }
    } else {
        bad("E0003", span, "malformed choice")
    }
}

fn parse_one_line(chars: &Vec<char>, offsets: &Vec<usize>, toks: &Vec<Lexeme>, lo: usize, hi: usize) -> (r:
    ParsedLine)
    requires
        parse_input(chars@, offsets@, toks@),
        lo <= hi <= toks.len(),
    ensures
        r@ == parse_line(chars@, lexemes_view(toks@), lo as int, hi as int),
        r@ matches LineKind::Item(item) ==> lo < hi && item_span(item) == span_between(
            chars@,
            lexemes_view(toks@),
            lo as int,
            hi as int,
        ),
{
    if lo >= hi || (matches!(toks[lo].token, Token::Text(_)) && text_end_of(chars, toks, lo, hi)
        <= toks[lo].start) {
        return ParsedLine::Blank;
    }
    let span = span_of(chars, offsets, toks, lo, hi);
    match &toks[lo].token {
        Token::SectionEqEqEq => {
            if hi - lo == 3 && matches!(toks[lo + 2].token, Token::SectionEqEqEq) {
                match &toks[lo + 1].token {
                    Token::Ident(name) => {
                        let section = Section {
                            name: name.clone(),
                            name_span: span_of(chars, offsets, toks, lo + 1, lo + 2),
                            header_span: span,
                            items: Vec::new(),
                        };
                        proof {
                            assert(section@.items =~= Seq::<SpecItem>::empty());
                        }
                        ParsedLine::Header(section)
                    },
                    _ => bad("E0002", span, "malformed section header"),
                }
            } else {
                bad("E0002", span, "malformed section header")
            }
        },
        Token::Star => parse_choice_line(chars, offsets, toks, lo, hi),
        Token::Arrow => {
            if hi - lo == 2 {
                match &toks[lo + 1].token {
                    Token::Ident(target) => ParsedLine::Item(Item::Divert(Divert { target: target.clone(), span })),
                    _ => bad("E0004", span, "divert without a target"),
                }
            } else {
                bad("E0004", span, "divert without a target")
            }
        },
        Token::LBrace => {
            if hi - lo >= 2 && matches!(toks[hi - 1].token, Token::RBrace) {
                ParsedLine::Item(Item::Stmt(Stmt::Raw { text: text_of(chars, toks, lo + 1, hi - 1), span }))
            } else {
                bad("E0005", span, "unterminated brace")
            }
        },
        _ => ParsedLine::Item(Item::Line(Line { text: text_of(chars, toks, lo, hi), span })),
    }
}

fn add_item(sections: &mut Vec<Section>, item: Item)
    requires
        old(sections).len() > 0,
    ensures
        sections_view(final(sections)@) == parse_step(
            ParseState { sections: sections_view(old(sections)@), diags: Seq::empty() },
            LineKind::Item(item@),
        ).sections,
{
    let ghost before = sections_view(sections@);
    let mut last = sections.pop().unwrap();
    let ghost items_before = items_view(last.items@);
    last.items.push(item);
    proof {
        assert(items_view(last.items@) =~= items_before.push(item@));
    }
    sections.push(last);
    proof {
        assert(sections_view(sections@) =~= before.drop_last().push(last@));
    }
}

fn parse_lexemes(chars: &Vec<char>, offsets: &Vec<usize>, toks: &Vec<Lexeme>) -> (r: Result<File, Diagnostics>)
    requires
        parse_input(chars@, offsets@, toks@),
    ensures
        match r {
            Ok(file) => spec_parse_tokens(chars@, lexemes_view(toks@)) == Ok::<SpecFile, Seq<SpecDiagnostic>>(file@),
            Err(diags) => spec_parse_tokens(chars@, lexemes_view(toks@)) == Err::<SpecFile, Seq<SpecDiagnostic>>(
                diagnostics_view(diags@),
            ),
        },
{
    let ghost views = lexemes_view(toks@);
    let mut sections: Vec<Section> = Vec::new();
    let mut diags: Vec<Diagnostic> = Vec::new();
    let mut i: usize = 0;
    proof {
        assert(sections_view(sections@) =~= Seq::<SpecSection>::empty());
        assert(diagnostics_view(diags@) =~= Seq::<SpecDiagnostic>::empty());
    }
    while i < toks.len()
        invariant
            parse_input(chars@, offsets@, toks@),
            views == lexemes_view(toks@),
            0 <= i <= toks.len(),
            parse_lines(chars@, views, 0, ParseState { sections: Seq::empty(), diags: Seq::empty() })
                == parse_lines(
                chars@,
                views,
                i as int,
                ParseState { sections: sections_view(sections@), diags: diagnostics_view(diags@) },
            ),
        decreases toks.len() - i,
    {
        let hi = find_tok(toks, i, toks.len(), TokenClass::Newline);
        let end = if i < hi && matches!(toks[hi - 1].token, Token::Comment) {
            hi - 1
        } else {
            hi
        };
        assert(end == content_end(views, i as int, hi as int));
        let ghost state = ParseState { sections: sections_view(sections@), diags: diagnostics_view(diags@) };
        let line = parse_one_line(chars, offsets, toks, i, end);
        let ghost kind = line@;
        match line {
            ParsedLine::Blank => {},
            ParsedLine::Header(section) => {
                sections.push(section);
                proof {
                    assert(sections_view(sections@) =~= state.sections.push(section@));
                }
            },
            ParsedLine::Item(item) => {
                if sections.len() == 0 {
                    let span = span_of(chars, offsets, toks, i, end);
                    let d = Diagnostic::error("E0006", Some(span), String::from_str("content before the first section"));
                    diags.push(d);
                    proof {
                        assert(diagnostics_view(diags@) =~= state.diags.push(d@));
                    }
                } else {
                    add_item(&mut sections, item);
                }
            },
            ParsedLine::Bad(d) => {
                diags.push(d);
                proof {
                    assert(diagnostics_view(diags@) =~= state.diags.push(d@));
                }
            },
        }
        proof {
            let next = ParseState { sections: sections_view(sections@), diags: diagnostics_view(diags@) };
            assert(next == parse_step(state, kind));
            assert(parse_lines(chars@, views, i as int, state) == parse_lines(chars@, views, hi + 1, next));
            if hi >= toks.len() {
                assert(parse_lines(chars@, views, hi + 1, next) == next);
                assert(parse_lines(chars@, views, toks.len() as int, next) == next);
            }
        }
        if hi >= toks.len() {
            i = toks.len();
        } else {
            i = hi + 1;
        }
    }
    if diags.len() == 0 {
        Ok(File { sections })
    } else {
        Err(diags)
    }
}

/// Parses a source text into its sections. Every malformed line is
/// reported, in order; a lexical error is reported alone.
pub fn parse(src: &str) -> (r: Result<File, Diagnostics>)
    ensures
        match r {
            Ok(file) => spec_parse(src@) == Ok::<SpecFile, Seq<SpecDiagnostic>>(file@),
            Err(diags) => spec_parse(src@) == Err::<SpecFile, Seq<SpecDiagnostic>>(diagnostics_view(diags@)),
        },
{
    let (chars, offsets) = char_table(src);
    match lex_chars(&chars) {
        Ok(toks) => {
            proof {
                lemma_lex_from_ordered(chars@, 0);
            }
            parse_lexemes(&chars, &offsets, &toks)
        },
        Err((start, end, message)) => {
            let span = Span::new(offsets[start], offsets[end]);
            let diag = Diagnostic::error("E0001", Some(span), String::from_str(message));
            let mut diags: Vec<Diagnostic> = Vec::new();
            diags.push(diag);
            proof {
                assert(diagnostics_view(diags@) =~= seq![diag@]);
            }
            Err(diags)
        },
    }
}

/// A text as `Debug` prints it: between double quotes, with the characters
/// that need it escaped.
pub uninterp spec fn debug_quoted(text: Seq<char>) -> Seq<char>;

/// `format!` with `{:?}` on a `str`, which is `<str as Debug>::fmt`: the
/// result is a function of the text alone, named `debug_quoted`.
#[verifier::external_body]
fn quote_debug(text: &str) -> (r: String)
    ensures
        r@ == debug_quoted(text@),
{
    format!("{:?}", text)
}

/// The text that a token carries; empty for the tokens that carry none.
pub open spec fn token_text(token: SpecToken) -> Seq<char> {
    match token {
        SpecToken::Ident(s) => s,
        SpecToken::String(s) => s,
        SpecToken::Text(s) => s,
        _ => Seq::empty(),
    }
}

/// A token as it is printed: the name of its variant, followed in round
/// brackets by its number, or by its text as `quoted` gives it.
pub open spec fn spec_debug_token(token: SpecToken, quoted: Seq<char>) -> Seq<char> {
    match token {
        SpecToken::SectionEqEqEq => "SectionEqEqEq"@,
        SpecToken::Star => "Star"@,
        SpecToken::Arrow => "Arrow"@,
        SpecToken::LBrace => "LBrace"@,
        SpecToken::RBrace => "RBrace"@,
        SpecToken::Ident(_) => "Ident("@ + quoted + ")"@,
        SpecToken::String(_) => "String("@ + quoted + ")"@,
        SpecToken::Number(n) => "Number("@ + signed_decimal_spec(n as int) + ")"@,
        SpecToken::Newline => "Newline"@,
        SpecToken::Text(_) => "Text("@ + quoted + ")"@,
        SpecToken::Comment => "Comment"@,
        SpecToken::Eq => "Eq"@,
        SpecToken::Gt => "Gt"@,
        SpecToken::Ge => "Ge"@,
        SpecToken::Lt => "Lt"@,
        SpecToken::Le => "Le"@,
        SpecToken::EqEq => "EqEq"@,
        SpecToken::Ne => "Ne"@,
    }
}

fn wrapped(name: &str, inner: &str) -> (r: String)
    ensures
        r@ == name@ + inner@ + ")"@,
{
    let mut r = String::from_str(name);
    r.append(inner);
    r.append(")");
    r
}

/// Prints a token, given the quoted form of the text that it carries.
pub fn debug_token(token: &Token, quoted: &str) -> (r: String)
    ensures
        r@ == spec_debug_token(token@, quoted@),
{
    match token {
        Token::SectionEqEqEq => String::from_str("SectionEqEqEq"),
        Token::Star => String::from_str("Star"),
        Token::Arrow => String::from_str("Arrow"),
        Token::LBrace => String::from_str("LBrace"),
        Token::RBrace => String::from_str("RBrace"),
        Token::Ident(_) => wrapped("Ident(", quoted),
        Token::String(_) => wrapped("String(", quoted),
        Token::Number(n) => wrapped("Number(", signed_decimal(*n).as_str()),
        Token::Newline => String::from_str("Newline"),
        Token::Text(_) => wrapped("Text(", quoted),
        Token::Comment => String::from_str("Comment"),
        Token::Eq => String::from_str("Eq"),
        Token::Gt => String::from_str("Gt"),
        Token::Ge => String::from_str("Ge"),
        Token::Lt => String::from_str("Lt"),
        Token::Le => String::from_str("Le"),
        Token::EqEq => String::from_str("EqEq"),
        Token::Ne => String::from_str("Ne"),
    }
}

/// A range of offsets as it is printed: `start..end`.
pub open spec fn spec_range(span: Span) -> Seq<char> {
    decimal_spec(span.start as nat) + ".."@ + decimal_spec(span.end as nat)
}

/// One line of the token dump: the token, `@`, and its span.
pub open spec fn spec_debug_spanned(token: SpecToken, span: Span) -> Seq<char> {
    spec_debug_token(token, debug_quoted(token_text(token))) + "@"@ + spec_range(span)
}

fn debug_spanned(token: &Token, span: Span) -> (r: String)
    ensures
        r@ == spec_debug_spanned(token@, span),
{
    let mut r = match token {
        Token::Ident(s) => debug_token(token, quote_debug(s.as_str()).as_str()),
        Token::String(s) => debug_token(token, quote_debug(s.as_str()).as_str()),
        Token::Text(s) => debug_token(token, quote_debug(s.as_str()).as_str()),
        _ => debug_token(token, ""),
    };
    r.append("@");
    r.append(decimal(span.start).as_str());
    r.append("..");
    r.append(decimal(span.end).as_str());
    r
}

/// The lines of the token dump up to, not including, token `n`, joined by
/// line feeds.
pub open spec fn spec_dump(toks: Seq<(SpecToken, Span)>, n: int) -> Seq<char>
    decreases n,
{
    if n <= 0 {
        Seq::empty()
    } else if n == 1 {
        spec_debug_spanned(toks[0].0, toks[0].1)
    } else {
        spec_dump(toks, n - 1) + "\n"@ + spec_debug_spanned(toks[n - 1].0, toks[n - 1].1)
    }
}

/// The report of a failed lexing: of its first diagnostic the code and the
/// message, and the span where it has one.
pub open spec fn spec_lex_failure(diags: Seq<SpecDiagnostic>) -> Seq<char> {
    if diags.len() == 0 {
        "LEX ERROR: <unknown>"@
    } else {
        let head = "LEX ERROR ["@ + diags[0].code + "] "@ + diags[0].message;
        match diags[0].span {
            Some(span) => head + " @ "@ + spec_range(span),
            None => head,
        }
    }
}

/// Reports a failed lexing on one line.
pub fn lex_failure(diags: &Vec<Diagnostic>) -> (r: String)
    ensures
        r@ == spec_lex_failure(diagnostics_view(diags@)),
{
    if diags.len() == 0 {
        return String::from_str("LEX ERROR: <unknown>");
    }
    let first = &diags[0];
    let mut r = String::from_str("LEX ERROR [");
    r.append(first.code);
    r.append("] ");
    r.append(first.message.as_str());
    if let Some(span) = first.span {
        r.append(" @ ");
        r.append(decimal(span.start).as_str());
        r.append("..");
        r.append(decimal(span.end).as_str());
    }
    r
}

/// What `debug_lex` prints for a source text.
pub open spec fn spec_debug_lex(src: Seq<char>) -> Seq<char> {
    match spec_lex(src) {
        Ok(toks) => spec_dump(toks, toks.len() as int),
        Err(d) => spec_lex_failure(seq![d]),
    }
}

/// Lexes a source text and prints its tokens, one per line, each with its
/// span; or the lexical error.
pub fn debug_lex(src: &str) -> (r: String)
    ensures
        r@ == spec_debug_lex(src@),
{
    match lex(src) {
        Ok(toks) => {
            let mut out = String::new();
            let mut k: usize = 0;
            while k < toks.len()
                invariant
                    0 <= k <= toks.len(),
                    out@ == spec_dump(tokens_view(toks@), k as int),
                decreases toks.len() - k,
            {
                if k > 0 {
                    out.append("\n");
                }
                let line = debug_spanned(&toks[k].0, toks[k].1);
                out.append(line.as_str());
                proof {
                    if k == 0 {
                        assert(Seq::<char>::empty() + line@ =~= line@);
                    }
                }
                k = k + 1;
            }
            out
        },
        Err(diags) => lex_failure(&diags),
    }
}

} // verus!
