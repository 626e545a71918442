//! The lexer: source text to tokens with byte-offset spans.

use crate::diagnostic::{diagnostics_view, Diagnostic, SpecDiagnostic, Diagnostics};
use crate::span::Span;
use crate::text::{byte_pos, char_table, decimal_value, is_digit, is_space, lemma_trim_trail, parse_decimal, substring, trim_end_at, trim_trail};
use vstd::prelude::*;
use vstd::string::*;

verus! {

/// The tokens of the script language.
#[derive(Debug, Clone, PartialEq)]
pub enum Token {
    /// `===`
    SectionEqEqEq,
    /// `*`
    Star,
    /// `->`
    Arrow,
    /// `{`
    LBrace,
    /// `}`
    RBrace,
    Ident(String),
    String(String),
    Number(i64),
    Newline,
    /// The rest of a line that starts with no other token, without the
    /// white space at its end.
    Text(String),
    /// `//` up to the end of the line.
    Comment,
    /// `=`
    Eq,
    Gt,
    Ge,
    Lt,
    Le,
    EqEq,
    Ne,
}

/// A token with its texts as character sequences.
pub enum SpecToken {
    SectionEqEqEq,
    Star,
    Arrow,
    LBrace,
    RBrace,
    Ident(Seq<char>),
    String(Seq<char>),
    Number(i64),
    Newline,
    Text(Seq<char>),
    Comment,
    Eq,
    Gt,
    Ge,
    Lt,
    Le,
    EqEq,
    Ne,
}

impl View for Token {
    type V = SpecToken;

    open spec fn view(&self) -> SpecToken {
        match self {
            Token::SectionEqEqEq => SpecToken::SectionEqEqEq,
            Token::Star => SpecToken::Star,
            Token::Arrow => SpecToken::Arrow,
            Token::LBrace => SpecToken::LBrace,
            Token::RBrace => SpecToken::RBrace,
            Token::Ident(s) => SpecToken::Ident(s@),
            Token::String(s) => SpecToken::String(s@),
            Token::Number(n) => SpecToken::Number(*n),
            Token::Newline => SpecToken::Newline,
            Token::Text(s) => SpecToken::Text(s@),
            Token::Comment => SpecToken::Comment,
            Token::Eq => SpecToken::Eq,
            Token::Gt => SpecToken::Gt,
            Token::Ge => SpecToken::Ge,
            Token::Lt => SpecToken::Lt,
            Token::Le => SpecToken::Le,
            Token::EqEq => SpecToken::EqEq,
            Token::Ne => SpecToken::Ne,
        }
    }
}

/// A token with its span in bytes.
pub type SpannedToken = (Token, Span);

/// A token with the range of character indices that it covers in the source.
#[derive(Debug, Clone, PartialEq)]
pub struct Lexeme {
    pub token: Token,
    pub start: usize,
    pub end: usize,
}

/// A `Lexeme` over the view of its token.
pub struct SpecLexeme {
    pub token: SpecToken,
    pub start: int,
    pub end: int,
}

impl View for Lexeme {
    type V = SpecLexeme;

    open spec fn view(&self) -> SpecLexeme {
        SpecLexeme { token: self.token@, start: self.start as int, end: self.end as int }
    }
}

/// The views of the lexemes of a list, in order.
pub open spec fn lexemes_view(toks: Seq<Lexeme>) -> Seq<SpecLexeme> {
    Seq::new(toks.len(), |k: int| toks[k]@)
}

/// What the lexer finds wrong: the range of character indices of the
/// offending text, and a message.
pub struct LexError {
    pub start: int,
    pub end: int,
    pub message: Seq<char>,
}

/// The views of the tokens of a list, each with its span, in order.
pub open spec fn tokens_view(toks: Seq<SpannedToken>) -> Seq<(SpecToken, Span)> {
    Seq::new(toks.len(), |k: int| (toks[k].0@, toks[k].1))
}

/// The classes of characters that the lexer scans runs of.
#[derive(Clone, Copy)]
pub enum CharClass {
    /// Space, tab or carriage return: skipped between tokens.
    Blank,
    /// An ASCII digit.
    Digit,
    /// An ASCII letter, digit or underscore.
    IdentChar,
    /// Anything but a line feed.
    NotNewline,
    /// Anything but a double quote.
    NotQuote,
}

/// Whether `c` is a space, a tab or a carriage return.
pub open spec fn is_blank(c: char) -> bool {
    c == ' ' || c == '\t' || c == '\r'
}

/// Whether `c` can start an identifier: an ASCII letter or an underscore.
pub open spec fn is_ident_start(c: char) -> bool {
    ('a' <= c <= 'z') || ('A' <= c <= 'Z') || c == '_'
}

/// Whether a character is of a class.
pub open spec fn in_class(class: CharClass, c: char) -> bool {
    match class {
        CharClass::Blank => is_blank(c),
        CharClass::Digit => is_digit(c),
        CharClass::IdentChar => is_ident_start(c) || is_digit(c),
        CharClass::NotNewline => c != '\n',
        CharClass::NotQuote => c != '"',
    }
}

/// The index at which the run of characters of `class` that starts at `i`
/// ends: that of the first character from `i` on that is not of the class,
/// or the length of `src`.
pub open spec fn run_end(src: Seq<char>, i: int, class: CharClass) -> int
    decreases src.len() - i,
{
    if 0 <= i < src.len() && in_class(class, src[i]) {
        run_end(src, i + 1, class)
    } else {
        i
    }
}

/// A run ends within the text, holds characters of the class alone, and
/// stops before one that is not of it.
pub proof fn lemma_run_end(src: Seq<char>, i: int, class: CharClass)
    requires
        0 <= i <= src.len(),
    ensures
        i <= run_end(src, i, class) <= src.len(),
        forall|k: int| i <= k < run_end(src, i, class) ==> in_class(class, #[trigger] src[k]),
        run_end(src, i, class) < src.len() ==> !in_class(class, src[run_end(src, i, class)]),
        i < src.len() && in_class(class, src[i]) ==> run_end(src, i, class) > i,
    decreases src.len() - i,
{
    if i < src.len() && in_class(class, src[i]) {
        lemma_run_end(src, i + 1, class);
    }
}

/// A run is fixed by where it stops.
pub proof fn lemma_run_end_is(src: Seq<char>, i: int, e: int, class: CharClass)
    requires
        0 <= i <= e <= src.len(),
        forall|k: int| i <= k < e ==> in_class(class, #[trigger] src[k]),
        e < src.len() ==> !in_class(class, src[e]),
    ensures
        run_end(src, i, class) == e,
    decreases e - i,
{
    if i < e {
        lemma_run_end_is(src, i + 1, e, class);
    }
}

fn char_in_class(class: CharClass, c: char) -> (b: bool)
    ensures
        b == in_class(class, c),
{
    match class {
        CharClass::Blank => c == ' ' || c == '\t' || c == '\r',
        CharClass::Digit => '0' <= c && c <= '9',
        CharClass::IdentChar => ('a' <= c && c <= 'z') || ('A' <= c && c <= 'Z') || c == '_' || (
        '0' <= c && c <= '9'),
        CharClass::NotNewline => c != '\n',
        CharClass::NotQuote => c != '"',
    }
}

fn scan_run(chars: &Vec<char>, i: usize, class: CharClass) -> (e: usize)
    requires
        i <= chars.len(),
    ensures
        e == run_end(chars@, i as int, class),
        i <= e <= chars.len(),
{
    let mut e: usize = i;
    while e < chars.len() && char_in_class(class, chars[e])
        invariant
            i <= e <= chars.len(),
            forall|k: int| i <= k < e ==> in_class(class, #[trigger] chars@[k]),
        decreases chars.len() - e,
    {
        e = e + 1;
    }
    proof {
        lemma_run_end_is(chars@, i as int, e as int, class);
    }
    e
}

/// Whether `src` holds `a` at index `i` and `b` right behind it.
pub open spec fn pair_at(src: Seq<char>, i: int, a: char, b: char) -> bool {
    0 <= i && i + 1 < src.len() && src[i] == a && src[i + 1] == b
}

/// The token that starts at index `i`, with the index at which it ends; or,
/// where the text there is no token, the end of the offending text and what
/// is wrong with it. The forms are tried in this order: a comment, `===`,
/// `->`, a brace or `*`, a comparison of two characters, then of one, a
/// quoted string, an integer, an identifier, a line feed, and last the rest
/// of the line as text. Such a text covers the line to its end, and holds it
/// without the white space at its end.
pub open spec fn lex_token(src: Seq<char>, i: int) -> Result<(SpecToken, int), (int, Seq<char>)>
    recommends
        0 <= i < src.len(),
        !is_blank(src[i]),
{
    let c = src[i];
    if pair_at(src, i, '/', '/') {
        Ok((SpecToken::Comment, run_end(src, i, CharClass::NotNewline)))
    } else if c == '=' && pair_at(src, i + 1, '=', '=') {
        Ok((SpecToken::SectionEqEqEq, i + 3))
    } else if pair_at(src, i, '-', '>') {
        Ok((SpecToken::Arrow, i + 2))
    } else if c == '{' {
        Ok((SpecToken::LBrace, i + 1))
    } else if c == '}' {
        Ok((SpecToken::RBrace, i + 1))
    } else if c == '*' {
        Ok((SpecToken::Star, i + 1))
    } else if pair_at(src, i, '=', '=') {
        Ok((SpecToken::EqEq, i + 2))
    } else if pair_at(src, i, '!', '=') {
        Ok((SpecToken::Ne, i + 2))
    } else if pair_at(src, i, '>', '=') {
        Ok((SpecToken::Ge, i + 2))
    } else if pair_at(src, i, '<', '=') {
        Ok((SpecToken::Le, i + 2))
    } else if c == '>' {
        Ok((SpecToken::Gt, i + 1))
    } else if c == '<' {
        Ok((SpecToken::Lt, i + 1))
    } else if c == '=' {
        Ok((SpecToken::Eq, i + 1))
    } else if c == '"' {
        let close = run_end(src, i + 1, CharClass::NotQuote);
        if close < src.len() {
            Ok((SpecToken::String(src.subrange(i + 1, close)), close + 1))
        } else {
            Err((src.len() as int, "unterminated string literal"@))
        }
    } else if is_digit(c) {
        let end = run_end(src, i, CharClass::Digit);
        let value = decimal_value(src.subrange(i, end));
        if value <= i64::MAX {
            Ok((SpecToken::Number(value as i64), end))
        } else {
            Err((end, "integer literal out of range"@))
        }
    } else if is_ident_start(c) {
        let end = run_end(src, i, CharClass::IdentChar);
        Ok((SpecToken::Ident(src.subrange(i, end)), end))
    } else if c == '\n' {
        Ok((SpecToken::Newline, i + 1))
    } else {
        let end = run_end(src, i, CharClass::NotNewline);
        Ok((SpecToken::Text(src.subrange(i, trim_trail(src, i, end))), end))
    }
}

/// A token is never empty and ends within the text.
pub proof fn lemma_lex_token_advances(src: Seq<char>, i: int)
    requires
        0 <= i < src.len(),
        !is_blank(src[i]),
    ensures
        match lex_token(src, i) {
            Ok((_, end)) => i < end <= src.len(),
            Err((end, _)) => i < end <= src.len(),
        },
{
    lemma_run_end(src, i, CharClass::NotNewline);
    lemma_run_end(src, i + 1, CharClass::NotQuote);
    lemma_run_end(src, i, CharClass::Digit);
    lemma_run_end(src, i, CharClass::IdentChar);
}

fn has_pair(chars: &Vec<char>, i: usize, a: char, b: char) -> (r: bool)
    requires
        i < chars.len(),
    ensures
        r == pair_at(chars@, i as int, a, b),
{
    i + 1 < chars.len() && chars[i] == a && chars[i + 1] == b
}

fn scan_token(chars: &Vec<char>, i: usize) -> (r: Result<(Token, usize), (usize, &'static str)>)
    requires
        i < chars.len(),
        !is_blank(chars@[i as int]),
    ensures
        match r {
            Ok((token, end)) => lex_token(chars@, i as int) == Ok::<(SpecToken, int), (int, Seq<char>)>(
                (token@, end as int),
            ) && i < end <= chars.len(),
            Err((end, message)) => lex_token(chars@, i as int) == Err::<(SpecToken, int), (int, Seq<char>)>(
                (end as int, message@),
            ) && i < end <= chars.len(),
        },
{
    proof {
        lemma_lex_token_advances(chars@, i as int);
    }
    let c = chars[i];
    if has_pair(chars, i, '/', '/') {
        Ok((Token::Comment, scan_run(chars, i, CharClass::NotNewline)))
    } else if c == '=' && i + 1 < chars.len() && has_pair(chars, i + 1, '=', '=') {
        Ok((Token::SectionEqEqEq, i + 3))
    } else if has_pair(chars, i, '-', '>') {
        Ok((Token::Arrow, i + 2))
    } else if c == '{' {
        Ok((Token::LBrace, i + 1))
    } else if c == '}' {
        Ok((Token::RBrace, i + 1))
    } else if c == '*' {
        Ok((Token::Star, i + 1))
    } else if has_pair(chars, i, '=', '=') {
        Ok((Token::EqEq, i + 2))
    } else if has_pair(chars, i, '!', '=') {
        Ok((Token::Ne, i + 2))
    } else if has_pair(chars, i, '>', '=') {
        Ok((Token::Ge, i + 2))
    } else if has_pair(chars, i, '<', '=') {
        Ok((Token::Le, i + 2))
    } else if c == '>' {
        Ok((Token::Gt, i + 1))
    } else if c == '<' {
        Ok((Token::Lt, i + 1))
    } else if c == '=' {
        Ok((Token::Eq, i + 1))
    } else if c == '"' {
        let close = scan_run(chars, i + 1, CharClass::NotQuote);
        if close < chars.len() {
            Ok((Token::String(substring(chars, i + 1, close)), close + 1))
        } else {
            Err((chars.len(), "unterminated string literal"))
        }
    } else if '0' <= c && c <= '9' {
        let end = scan_run(chars, i, CharClass::Digit);
        proof {
            lemma_run_end(chars@, i as int, CharClass::Digit);
        }
        match parse_decimal(chars, i, end, 0x7fff_ffff_ffff_ffff) {
            Some(value) => Ok((Token::Number(value as i64), end)),
            None => Err((end, "integer literal out of range")),
        }
    } else if ('a' <= c && c <= 'z') || ('A' <= c && c <= 'Z') || c == '_' {
        let end = scan_run(chars, i, CharClass::IdentChar);
        Ok((Token::Ident(substring(chars, i, end)), end))
    } else if c == '\n' {
        Ok((Token::Newline, i + 1))
    } else {
        let end = scan_run(chars, i, CharClass::NotNewline);
        Ok((Token::Text(substring(chars, i, trim_end_at(chars, i, end))), end))
    }
}

/// The span in bytes of the characters `src[i..end]`.
pub open spec fn span_at(src: Seq<char>, i: int, end: int) -> Span {
    Span { start: byte_pos(src, i) as usize, end: byte_pos(src, end) as usize }
}

/// The lexemes of `src` from index `i` on: blanks are skipped, then one
/// token is read, and so on to the end of the text. The first text that is
/// no token ends the run with an error.
pub open spec fn lex_from(src: Seq<char>, i: int) -> Result<Seq<SpecLexeme>, LexError>
    decreases src.len() - i,
    via lex_from_decreases
{
    let j = run_end(src, i, CharClass::Blank);
    if 0 <= i && j < src.len() {
        match lex_token(src, j) {
            Ok((token, end)) => match lex_from(src, end) {
                Ok(rest) => Ok(seq![SpecLexeme { token, start: j, end }] + rest),
                Err(e) => Err(e),
            },
            Err((end, message)) => Err(LexError { start: j, end, message }),
        }
    } else {
        Ok(Seq::empty())
    }
}

#[via_fn]
proof fn lex_from_decreases(src: Seq<char>, i: int) {
    if 0 <= i <= src.len() {
        lemma_run_end(src, i, CharClass::Blank);
        let j = run_end(src, i, CharClass::Blank);
        if j < src.len() {
            lemma_lex_token_advances(src, j);
        }
    }
}

/// Lexemes lie in the source one behind the other, and none is empty.
pub open spec fn lexemes_ordered(src: Seq<char>, toks: Seq<SpecLexeme>, from: int) -> bool {
    &&& forall|k: int| 0 <= k < toks.len() ==> from <= (#[trigger] toks[k]).start < toks[k].end <= src.len()
    &&& forall|k: int, m: int| 0 <= k < m < toks.len() ==> (#[trigger] toks[k]).end <= (#[trigger] toks[m]).start
}

/// The lexemes of a text lie in it one behind the other.
pub proof fn lemma_lex_from_ordered(src: Seq<char>, i: int)
    requires
        0 <= i <= src.len(),
    ensures
        lex_from(src, i) matches Ok(toks) ==> lexemes_ordered(src, toks, i),
    decreases src.len() - i,
{
    lemma_run_end(src, i, CharClass::Blank);
    let j = run_end(src, i, CharClass::Blank);
    if j < src.len() {
        lemma_lex_token_advances(src, j);
        if let Ok((token, end)) = lex_token(src, j) {
            lemma_lex_from_ordered(src, end);
        }
    }
}

/// No lexeme starts on a blank, and a free text ends on no white space.
pub proof fn lemma_lexeme_shapes(src: Seq<char>, i: int)
    requires
        0 <= i <= src.len(),
    ensures
        lex_from(src, i) matches Ok(toks) ==> forall|k: int|
            0 <= k < toks.len() ==> !is_blank(src[(#[trigger] toks[k]).start]) && (toks[k].token matches SpecToken::Text(
                text,
            ) ==> text.len() == 0 || !is_space(text.last())),
    decreases src.len() - i,
{
    lemma_run_end(src, i, CharClass::Blank);
    let j = run_end(src, i, CharClass::Blank);
    if j < src.len() {
        lemma_lex_token_advances(src, j);
        if let Ok((token, end)) = lex_token(src, j) {
            lemma_lexeme_shapes(src, end);
            lemma_run_end(src, j, CharClass::NotNewline);
            lemma_trim_trail(src, j, run_end(src, j, CharClass::NotNewline));
            if let Ok(rest) = lex_from(src, end) {
                let all = lex_from(src, i)->Ok_0;
                assert forall|k: int| 0 <= k < all.len() implies !is_blank(src[(#[trigger] all[k]).start]) && (
                all[k].token matches SpecToken::Text(text) ==> text.len() == 0 || !is_space(text.last())) by {
                    if k > 0 {
                        assert(all[k] == rest[k - 1]);
                    }
                }
            }
        }
    }
}

/// Whether the character of index `k` lies within one of the lexemes.
pub open spec fn covered(toks: Seq<SpecLexeme>, k: int) -> bool {
    exists|t: int| 0 <= t < toks.len() && (#[trigger] toks[t]).start <= k < toks[t].end
}

/// The lexer drops nothing but blanks: every character of a text that
/// lexes is a blank between tokens, or lies within a lexeme.
pub proof fn lemma_lex_drops_blanks_only(src: Seq<char>, i: int, k: int)
    requires
        0 <= i <= k < src.len(),
        lex_from(src, i) is Ok,
    ensures
        is_blank(src[k]) || covered(lex_from(src, i)->Ok_0, k),
    decreases src.len() - i,
{
    lemma_run_end(src, i, CharClass::Blank);
    let j = run_end(src, i, CharClass::Blank);
    if k >= j {
        lemma_lex_token_advances(src, j);
        let (token, end) = lex_token(src, j)->Ok_0;
        let rest = lex_from(src, end)->Ok_0;
        let all = lex_from(src, i)->Ok_0;
        assert(all == seq![SpecLexeme { token, start: j, end }] + rest);
        if k < end {
            assert(all[0].start <= k < all[0].end);
        } else {
            lemma_lex_drops_blanks_only(src, end, k);
            if !is_blank(src[k]) {
                let t = choose|t: int| 0 <= t < rest.len() && (#[trigger] rest[t]).start <= k < rest[t].end;
                assert(all[t + 1] == rest[t]);
            }
        }
    }
}

/// The tokens of a source text, each with its span in bytes; or the
/// diagnostic, of code `E0001`, on the first text that is no token.
pub open spec fn spec_lex(src: Seq<char>) -> Result<Seq<(SpecToken, Span)>, SpecDiagnostic> {
    match lex_from(src, 0) {
        Ok(toks) => Ok(Seq::new(toks.len(), |k: int| (toks[k].token, span_at(src, toks[k].start, toks[k].end)))),
        Err(e) => Err(lex_diagnostic(src, e)),
    }
}

/// The diagnostic for a lexical error: code `E0001`, on the span in bytes of
/// the offending text.
pub open spec fn lex_diagnostic(src: Seq<char>, e: LexError) -> SpecDiagnostic {
    Diagnostic::spec_error("E0001"@, Some(span_at(src, e.start, e.end)), e.message)
}

/// What `lex_from(src, 0)` is, given the lexemes read before index `i`.
spec fn lexed_so_far(done: Seq<SpecLexeme>, rest: Result<Seq<SpecLexeme>, LexError>) -> Result<
    Seq<SpecLexeme>,
    LexError,
> {
    match rest {
        Ok(toks) => Ok(done + toks),
        Err(e) => Err(e),
    }
}

/// Lexes the characters of a source text into lexemes; on the first text
/// that is no token, gives the range of that text with a message instead.
pub fn lex_chars(chars: &Vec<char>) -> (r: Result<Vec<Lexeme>, (usize, usize, &'static str)>)
    ensures
        match r {
            Ok(toks) => lex_from(chars@, 0) == Ok::<Seq<SpecLexeme>, LexError>(lexemes_view(toks@)),
            Err((start, end, message)) => lex_from(chars@, 0) == Err::<Seq<SpecLexeme>, LexError>(
                LexError { start: start as int, end: end as int, message: message@ },
            ) && start < end <= chars.len(),
        },
{
    let mut out: Vec<Lexeme> = Vec::new();
    let mut i: usize = 0;
    proof {
        assert(lexemes_view(out@) + lex_from(chars@, 0)->Ok_0 =~= lex_from(chars@, 0)->Ok_0);
    }
    loop
        invariant
            0 <= i <= chars.len(),
            lex_from(chars@, 0) == lexed_so_far(lexemes_view(out@), lex_from(chars@, i as int)),
        decreases chars.len() - i,
    {
        let j = scan_run(chars, i, CharClass::Blank);
        proof {
            lemma_run_end(chars@, i as int, CharClass::Blank);
        }
        if j >= chars.len() {
            proof {
                assert(lexemes_view(out@) + Seq::empty() =~= lexemes_view(out@));
            }
            return Ok(out);
        }
        match scan_token(chars, j) {
            Ok((token, end)) => {
                let ghost before = lexemes_view(out@);
                let lexeme = Lexeme { token, start: j, end };
                let ghost item = lexeme@;
                out.push(lexeme);
                proof {
                    assert(lexemes_view(out@) =~= before.push(item));
                    match lex_from(chars@, end as int) {
                        Ok(rest) => {
                            assert(before + (seq![item] + rest) =~= before.push(item) + rest);
                        },
                        Err(d) => {},
                    }
                }
                i = end;
            },
            Err((end, message)) => {
                return Err((j, end, message));
            },
        }
    }
}

/// Lexes a source text: its tokens in order, each with its span in bytes,
/// or the diagnostic on the first text that is no token.
pub fn lex(src: &str) -> (r: Result<Vec<SpannedToken>, Diagnostics>)
    ensures
        match r {
            Ok(toks) => spec_lex(src@) == Ok::<Seq<(SpecToken, Span)>, SpecDiagnostic>(tokens_view(toks@)),
            Err(diags) => spec_lex(src@) matches Err(d) && diagnostics_view(diags@) == seq![d],
        },
{
    let (chars, offsets) = char_table(src);
    match lex_chars(&chars) {
        Ok(lexemes) => {
            proof {
                lemma_lex_from_ordered(chars@, 0);
            }
            let ghost views = lexemes_view(lexemes@);
            let mut out: Vec<SpannedToken> = Vec::new();
            for lexeme in it: lexemes
                invariant
                    it.seq() == lexemes@,
                    chars@ == src@,
                    views == lexemes_view(lexemes@),
                    lexemes_ordered(chars@, views, 0),
                    offsets.len() == chars.len() + 1,
                    forall|k: int| 0 <= k <= chars.len() ==> #[trigger] offsets[k] == byte_pos(chars@, k),
                    out.len() == it.index(),
                    forall|k: int| 0 <= k < out.len() ==> (#[trigger] out[k]).0@ == views[k].token && out[k].1 == span_at(chars@, views[k].start, views[k].end),
            {
                assert(lexeme@ == views[it.index() as int]);
                let span = Span::new(offsets[lexeme.start], offsets[lexeme.end]);
                out.push((lexeme.token, span));
            }
            proof {
                assert(tokens_view(out@) =~= spec_lex(src@)->Ok_0);
            }
            Ok(out)
        },
        Err((start, end, message)) => {
            let span = Span::new(offsets[start], offsets[end]);
            let diag = Diagnostic::error("E0001", Some(span), String::from_str(message));
            let mut diags: Vec<Diagnostic> = Vec::new();
            diags.push(diag);
            proof {
                assert(diagnostics_view(diags@) =~= seq![diag@]);
            }
            Err(diags)
        },
    }
}

} // verus!
