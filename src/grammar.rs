//! The lexical grammar as spec functions over the decoded source.
//!
//! Scanning is a sequence of steps. A step starts at an index `i` of the
//! source, consumes the characters `[i, lexeme_end(src, i))`, and has an
//! `outcome`: it emits one token whose lexeme is exactly what it consumed,
//! reports one diagnostic, or does neither (whitespace and comments).
use vstd::prelude::*;

use crate::token::{Literal, ScanError, Token, TokenType};

verus! {

pub open spec fn is_digit(c: char) -> bool {
    '0' <= c && c <= '9'
}

pub open spec fn is_alpha(c: char) -> bool {
    ('a' <= c && c <= 'z') || ('A' <= c && c <= 'Z') || c == '_'
}

pub open spec fn is_alpha_numeric(c: char) -> bool {
    is_alpha(c) || is_digit(c)
}

/// The first index at or after `i` whose character is not a digit.
pub open spec fn digits_end(src: Seq<char>, i: int) -> int
    decreases src.len() - i,
{
    if i < src.len() && is_digit(src[i]) {
        digits_end(src, i + 1)
    } else {
        i
    }
}

/// The first index at or after `i` whose character cannot continue a word.
pub open spec fn word_end(src: Seq<char>, i: int) -> int
    decreases src.len() - i,
{
    if i < src.len() && is_alpha_numeric(src[i]) {
        word_end(src, i + 1)
    } else {
        i
    }
}

/// The first index at or after `i` that holds `stop`, or the length.
pub open spec fn find_char(src: Seq<char>, i: int, stop: char) -> int
    decreases src.len() - i,
{
    if i < src.len() && src[i] != stop {
        find_char(src, i + 1, stop)
    } else {
        i
    }
}

/// Number of line breaks among the first `i` characters.
pub open spec fn newlines_before(src: Seq<char>, i: int) -> int
    decreases i,
{
    if i <= 0 {
        0
    } else {
        newlines_before(src, i - 1) + if src[i - 1] == '\n' { 1int } else { 0int }
    }
}

/// The 1-based line on which index `i` stands.
pub open spec fn line_at(src: Seq<char>, i: int) -> int {
    1 + newlines_before(src, i)
}

/// Whether the character after index `i` exists and is `expected`.
pub open spec fn next_is(src: Seq<char>, i: int, expected: char) -> bool {
    i + 1 < src.len() && src[i + 1] == expected
}

/// The kind of a token that is one character long and never longer.
pub open spec fn single_char_kind(c: char) -> Option<TokenType> {
    if c == '(' {
        Some(TokenType::LEFT_PAREN)
    } else if c == ')' {
        Some(TokenType::RIGHT_PAREN)
    } else if c == '{' {
        Some(TokenType::LEFT_BRACE)
    } else if c == '}' {
        Some(TokenType::RIGHT_BRACE)
    } else if c == ',' {
        Some(TokenType::COMMA)
    } else if c == '.' {
        Some(TokenType::DOT)
    } else if c == '-' {
        Some(TokenType::MINUS)
    } else if c == '+' {
        Some(TokenType::PLUS)
    } else if c == ';' {
        Some(TokenType::SEMICOLON)
    } else if c == '*' {
        Some(TokenType::STAR)
    } else {
        None
    }
}

/// For `!`, `=`, `<` and `>`: the kind of the bare token, or with `extended`
/// the kind of the token followed by `=`.
pub open spec fn operator_kind(c: char, extended: bool) -> Option<TokenType> {
    if c == '!' {
        Some(if extended { TokenType::BANG_EQUAL } else { TokenType::BANG })
    } else if c == '=' {
        Some(if extended { TokenType::EQUAL_EQUAL } else { TokenType::EQUAL })
    } else if c == '<' {
        Some(if extended { TokenType::LESS_EQUAL } else { TokenType::LESS })
    } else if c == '>' {
        Some(if extended { TokenType::GREATER_EQUAL } else { TokenType::GREATER })
    } else {
        None
    }
}

pub open spec fn is_blank(c: char) -> bool {
    c == ' ' || c == '\r' || c == '\t' || c == '\n'
}

/// The kind of a word: its keyword if it is one, else `IDENTIFIER`.
pub open spec fn word_kind(word: Seq<char>) -> TokenType {
    if word == "and"@ {
        TokenType::AND
    } else if word == "class"@ {
        TokenType::CLASS
    } else if word == "else"@ {
        TokenType::ELSE
    } else if word == "false"@ {
        TokenType::FALSE
    } else if word == "fun"@ {
        TokenType::FUN
    } else if word == "for"@ {
        TokenType::FOR
    } else if word == "if"@ {
        TokenType::IF
    } else if word == "nil"@ {
        TokenType::NIL
    } else if word == "or"@ {
        TokenType::OR
    } else if word == "print"@ {
        TokenType::PRINT
    } else if word == "return"@ {
        TokenType::RETURN
    } else if word == "super"@ {
        TokenType::SUPER
    } else if word == "this"@ {
        TokenType::THIS
    } else if word == "true"@ {
        TokenType::TRUE
    } else if word == "var"@ {
        TokenType::VAR
    } else if word == "while"@ {
        TokenType::WHILE
    } else {
        TokenType::IDENTIFIER
    }
}

/// End of a number starting at `i`: a digit run, then a dot and a second
/// digit run only if a digit follows the dot.
pub open spec fn number_end(src: Seq<char>, i: int) -> int {
    let d = digits_end(src, i);
    if d + 1 < src.len() && src[d] == '.' && is_digit(src[d + 1]) {
        digits_end(src, d + 1)
    } else {
        d
    }
}

/// What one step of scanning does.
pub enum Outcome {
    /// Consumes without emitting anything (whitespace, a comment).
    Skip,
    /// Emits a token of this kind whose lexeme is what the step consumed.
    Emit(TokenType),
    /// Reports a character that starts no token.
    Unexpected(char),
    /// Reports a string literal that is never closed.
    Unterminated,
}

/// Where the step that starts at index `i` (below the length) stops.
pub open spec fn lexeme_end(src: Seq<char>, i: int) -> int {
    let c = src[i];
    if operator_kind(c, false) is Some {
        if next_is(src, i, '=') { i + 2 } else { i + 1 }
    } else if c == '/' {
        if next_is(src, i, '/') { find_char(src, i + 2, '\n') } else { i + 1 }
    } else if c == '"' {
        let close = find_char(src, i + 1, '"');
        if close < src.len() { close + 1 } else { close }
    } else if is_digit(c) {
        number_end(src, i)
    } else if is_alpha(c) {
        word_end(src, i)
    } else {
        i + 1
    }
}

/// What the step that starts at index `i` (below the length) does.
pub open spec fn outcome(src: Seq<char>, i: int) -> Outcome {
    let c = src[i];
    if single_char_kind(c) is Some {
        Outcome::Emit(single_char_kind(c)->0)
    } else if operator_kind(c, false) is Some {
        Outcome::Emit(operator_kind(c, next_is(src, i, '='))->0)
    } else if c == '/' {
        if next_is(src, i, '/') { Outcome::Skip } else { Outcome::Emit(TokenType::SLASH) }
    } else if is_blank(c) {
        Outcome::Skip
    } else if c == '"' {
        if find_char(src, i + 1, '"') < src.len() {
            Outcome::Emit(TokenType::STRING)
        } else {
            Outcome::Unterminated
        }
    } else if is_digit(c) {
        Outcome::Emit(TokenType::NUMBER)
    } else if is_alpha(c) {
        Outcome::Emit(word_kind(src.subrange(i, word_end(src, i))))
    } else {
        Outcome::Unexpected(c)
    }
}

/// Where a token stands in the source: its lexeme is `src[start..end]`.
pub struct Span {
    pub kind: TokenType,
    pub start: int,
    pub end: int,
}

/// The token that the step at index `i` emits, if any.
pub open spec fn step_spans(src: Seq<char>, i: int) -> Seq<Span> {
    match outcome(src, i) {
        Outcome::Emit(k) => seq![Span { kind: k, start: i, end: lexeme_end(src, i) }],
        _ => seq![],
    }
}

/// The diagnostic that the step at index `i` reports, if any.
pub open spec fn step_diagnostics(src: Seq<char>, i: int) -> Seq<ScanError> {
    match outcome(src, i) {
        Outcome::Unexpected(c) => seq![
            ScanError::UnexpectedCharacter { line: line_at(src, i) as usize, character: c },
        ],
        Outcome::Unterminated => seq![ScanError::UnterminatedString { line: line_at(src, i) as usize }],
        _ => seq![],
    }
}

/// The span of the end-of-input token: empty, at the end of the source.
pub open spec fn eof_span(src: Seq<char>) -> Span {
    Span { kind: TokenType::EOF, start: src.len() as int, end: src.len() as int }
}

/// The tokens that scanning from index `i` emits, the end-of-input token last.
pub open spec fn spans_from(src: Seq<char>, i: int) -> Seq<Span>
    decreases src.len() - i,
{
    if i < 0 || i >= src.len() {
        seq![eof_span(src)]
    } else {
        proof {
            lemma_step_advances(src, i);
        }
        step_spans(src, i) + spans_from(src, lexeme_end(src, i))
    }
}

/// The diagnostics that scanning from index `i` reports, in order.
pub open spec fn diagnostics_from(src: Seq<char>, i: int) -> Seq<ScanError>
    decreases src.len() - i,
{
    if i < 0 || i >= src.len() {
        seq![]
    } else {
        proof {
            lemma_step_advances(src, i);
        }
        step_diagnostics(src, i) + diagnostics_from(src, lexeme_end(src, i))
    }
}

/// The tokens of a whole source.
pub open spec fn token_spans(src: Seq<char>) -> Seq<Span> {
    spans_from(src, 0)
}

/// The diagnostics of a whole source.
pub open spec fn diagnostics(src: Seq<char>) -> Seq<ScanError> {
    diagnostics_from(src, 0)
}

/// Whether token `t` is the token described by span `s` of `src`: its kind,
/// its lexeme `src[start..end]`, the line of its first character, and its
/// literal (a string's text between the quotes, a number's own text).
pub open spec fn token_matches(src: Seq<char>, t: Token, s: Span) -> bool {
    &&& t.token_type == s.kind
    &&& t.lexeme@ == src.subrange(s.start, s.end)
    &&& t.line as int == line_at(src, s.start)
    &&& match t.literal {
        Literal::String(text) => s.kind == TokenType::STRING && text@ == src.subrange(
            s.start + 1,
            s.end - 1,
        ),
        Literal::Number(text) => s.kind == TokenType::NUMBER && text@ == src.subrange(
            s.start,
            s.end,
        ),
        Literal::Empty => s.kind != TokenType::STRING && s.kind != TokenType::NUMBER,
    }
}

/// Whether `tokens` are the tokens of `src`, one for each span, in order.
pub open spec fn scanned(src: Seq<char>, tokens: Seq<Token>) -> bool {
    &&& tokens.len() == token_spans(src).len()
    &&& forall|k: int| 0 <= k < tokens.len() ==> token_matches(src, tokens[k], token_spans(src)[k])
}

/// Number of line breaks in a text.
pub open spec fn count_newlines(s: Seq<char>) -> int
    decreases s.len(),
{
    if s.len() == 0 {
        0
    } else {
        count_newlines(s.drop_last()) + if s.last() == '\n' { 1int } else { 0int }
    }
}

pub proof fn lemma_newlines_bound(src: Seq<char>, i: int)
    requires
        0 <= i <= src.len(),
    ensures
        0 <= newlines_before(src, i) <= i,
    decreases i,
{
    if i > 0 {
        lemma_newlines_bound(src, i - 1);
    }
}

/// A stretch without line breaks leaves the line unchanged.
pub proof fn lemma_no_newlines(src: Seq<char>, a: int, b: int)
    requires
        0 <= a <= b <= src.len(),
        forall|j: int| a <= j < b ==> #[trigger] src[j] != '\n',
    ensures
        newlines_before(src, b) == newlines_before(src, a),
    decreases b - a,
{
    if a < b {
        lemma_no_newlines(src, a, b - 1);
    }
}

pub proof fn lemma_digits_end_bounds(src: Seq<char>, i: int)
    requires
        0 <= i <= src.len(),
    ensures
        i <= digits_end(src, i) <= src.len(),
        i < src.len() && is_digit(src[i]) ==> i < digits_end(src, i),
        digits_end(src, i) < src.len() ==> !is_digit(src[digits_end(src, i)]),
        forall|j: int| i <= j < digits_end(src, i) ==> is_digit(#[trigger] src[j]),
    decreases src.len() - i,
{
    if i < src.len() && is_digit(src[i]) {
        lemma_digits_end_bounds(src, i + 1);
    }
}

pub proof fn lemma_word_end_bounds(src: Seq<char>, i: int)
    requires
        0 <= i <= src.len(),
    ensures
        i <= word_end(src, i) <= src.len(),
        i < src.len() && is_alpha_numeric(src[i]) ==> i < word_end(src, i),
        word_end(src, i) < src.len() ==> !is_alpha_numeric(src[word_end(src, i)]),
        forall|j: int| i <= j < word_end(src, i) ==> is_alpha_numeric(#[trigger] src[j]),
    decreases src.len() - i,
{
    if i < src.len() && is_alpha_numeric(src[i]) {
        lemma_word_end_bounds(src, i + 1);
    }
}

pub proof fn lemma_find_char_bounds(src: Seq<char>, i: int, stop: char)
    requires
        0 <= i <= src.len(),
    ensures
        i <= find_char(src, i, stop) <= src.len(),
        find_char(src, i, stop) < src.len() ==> src[find_char(src, i, stop)] == stop,
        forall|j: int| i <= j < find_char(src, i, stop) ==> #[trigger] src[j] != stop,
    decreases src.len() - i,
{
    if i < src.len() && src[i] != stop {
        lemma_find_char_bounds(src, i + 1, stop);
    }
}

/// Every step consumes at least one character and stays within the source.
pub proof fn lemma_step_advances(src: Seq<char>, i: int)
    requires
        0 <= i < src.len(),
    ensures
        i < lexeme_end(src, i) <= src.len(),
{
    let c = src[i];
    lemma_digits_end_bounds(src, i);
    lemma_word_end_bounds(src, i);
    lemma_find_char_bounds(src, i + 1, '"');
    if next_is(src, i, '/') {
        lemma_find_char_bounds(src, i + 2, '\n');
    }
    let d = digits_end(src, i);
    if d + 1 < src.len() {
        lemma_digits_end_bounds(src, d + 1);
    }
}

} // verus!
