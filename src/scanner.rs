//! The scanner: one forward pass over the decoded source.
use vstd::prelude::*;

use vstd::string::StrSliceExecFns;

pub use crate::token::{Literal, ScanError, Token, TokenType};

use crate::grammar::{
    digits_end, find_char, is_alpha, is_alpha_numeric, lemma_digits_end_bounds,
    lemma_find_char_bounds, lemma_newlines_bound, lemma_no_newlines, lemma_word_end_bounds,
    lexeme_end, line_at, number_end, outcome, spans_from, diagnostics_from, step_diagnostics,
    step_spans, token_matches, word_end, word_kind, Outcome, Span, lemma_step_advances, eof_span,
    token_spans, diagnostics, scanned,
};

verus! {

broadcast use vstd::string::group_string_axioms;

/// Relies on `String::push`: the character is appended at the end.
pub assume_specification[ std::string::String::push ](s: &mut String, ch: char)
    ensures
        final(s)@ == old(s)@.push(ch),
;

/// Owns the source text, decoded once into characters.
pub struct Scanner {
    source: Vec<char>,
}

impl View for Scanner {
    type V = Seq<char>;

    closed spec fn view(&self) -> Seq<char> {
        self.source@
    }
}

impl Scanner {
    pub fn new(source: String) -> (r: Scanner)
        ensures
            r@ == source@,
    {
        let mut chars: Vec<char> = Vec::new();
        for c in it: source.as_str().chars()
            invariant
                it.seq() == source@,
                chars@ == it.seq().take(it.index() as int),
        {
            chars.push(c);
        }
        assert(chars@ =~= source@);
        Scanner { source: chars }
    }

    pub fn is_digit(c: Option<char>) -> (r: bool)
        ensures
            r == (c is Some && crate::grammar::is_digit(c->0)),
    {
        match c {
            Some(digit) => '0' <= digit && digit <= '9',
            None => false,
        }
    }

    pub fn is_alpha(c: Option<char>) -> (r: bool)
        ensures
            r == (c is Some && is_alpha(c->0)),
    {
        match c {
            Some(ch) => ('a' <= ch && ch <= 'z') || ('A' <= ch && ch <= 'Z') || ch == '_',
            None => false,
        }
    }

    pub fn is_alpha_numeric(c: Option<char>) -> (r: bool)
        ensures
            r == (c is Some && is_alpha_numeric(c->0)),
    {
        Self::is_alpha(c) || Self::is_digit(c)
    }

    /// Consumes and returns the character under the cursor.
    pub fn advance(&self, current: &mut usize) -> (c: char)
        requires
            *old(current) < self@.len(),
        ensures
            *final(current) == *old(current) + 1,
            c == self@[*old(current) as int],
    {
        let c = self.source[*current];
        // the length is a `usize`, so the cursor stays representable
        assert(*current + 1 <= self.source.len());
        *current += 1;
        c
    }

    /// The character under the cursor, or `None` at the end of the source.
    pub fn peek(&self, current: usize) -> (r: Option<char>)
        ensures
            r == if current < self@.len() {
                Some(self@[current as int])
            } else {
                None::<char>
            },
    {
        if current < self.source.len() {
            Some(self.source[current])
        } else {
            None
        }
    }

    /// The character after the one under the cursor, or `None` past the end.
    pub fn peek_next(&self, current: usize) -> (r: Option<char>)
        ensures
            r == if current + 1 < self@.len() {
                Some(self@[current + 1])
            } else {
                None::<char>
            },
    {
        if current < self.source.len() && current + 1 < self.source.len() {
            Some(self.source[current + 1])
        } else {
            None
        }
    }

    /// Consumes the character under the cursor only if it is `expected`.
    pub fn check_next_char(&self, current: &mut usize, expected: char) -> (r: bool)
        ensures
            r == (*old(current) < self@.len() && self@[*old(current) as int] == expected),
            *final(current) == *old(current) + if r { 1int } else { 0int },
    {
        if *current >= self.source.len() {
            return false;
        }
        if self.source[*current] != expected {
            return false;
        }
        *current += 1;
        true
    }

    /// The source text between two indices.
    fn text(&self, from: usize, to: usize) -> (r: String)
        requires
            from <= to <= self@.len(),
        ensures
            r@ == self@.subrange(from as int, to as int),
    {
        let mut r = String::new();
        let mut k: usize = from;
        while k < to
            invariant
                from <= k <= to <= self@.len(),
                r@ == self@.subrange(from as int, k as int),
            decreases to - k,
        {
            r.push(self.source[k]);
            k += 1;
            assert(r@ =~= self@.subrange(from as int, k as int));
        }
        r
    }

    /// Whether the source text between two indices is `word`.
    fn matches_word(&self, start: usize, end: usize, word: &str) -> (r: bool)
        requires
            start <= end <= self@.len(),
        ensures
            r == (self@.subrange(start as int, end as int) == word@),
    {
        let n = word.unicode_len();
        if end - start != n {
            assert(self@.subrange(start as int, end as int).len() != word@.len());
            return false;
        }
        let mut k: usize = 0;
        while k < n
            invariant
                start <= end <= self@.len(),
                end - start == n == word@.len(),
                k <= n,
                forall|j: int| 0 <= j < k ==> self@[start + j] == word@[j],
            decreases n - k,
        {
            if self.source[start + k] != word.get_char(k) {
                assert(self@.subrange(start as int, end as int)[k as int] != word@[k as int]);
                return false;
            }
            k += 1;
        }
        assert(self@.subrange(start as int, end as int) =~= word@);
        true
    }

    fn create_token(&self, token_type: TokenType, start: usize, end: usize, line: usize) -> (r:
        Token)
        requires
            start <= end <= self@.len(),
        ensures
            r.token_type == token_type,
            r.lexeme@ == self@.subrange(start as int, end as int),
            r.literal == Literal::Empty,
            r.line == line,
    {
        self.create_token_literal(token_type, start, end, Literal::Empty, line)
    }

    fn create_token_literal(
        &self,
        token_type: TokenType,
        start: usize,
        end: usize,
        literal: Literal,
        line: usize,
    ) -> (r: Token)
        requires
            start <= end <= self@.len(),
        ensures
            r.token_type == token_type,
            r.lexeme@ == self@.subrange(start as int, end as int),
            r.literal == literal,
            r.line == line,
    {
        Token { token_type, lexeme: self.text(start, end), literal, line }
    }

    /// Scans a number whose first digit, at `start`, was just consumed.
    fn number(&self, current: &mut usize, start: usize, line: usize) -> (r: Token)
        requires
            start < self@.len(),
            crate::grammar::is_digit(self@[start as int]),
            *old(current) == start + 1,
            line == line_at(self@, start as int),
        ensures
            *final(current) == number_end(self@, start as int),
            token_matches(
                self@,
                r,
                Span { kind: TokenType::NUMBER, start: start as int, end: *final(current) as int },
            ),
            line_at(self@, *final(current) as int) == line,
    {
        let ghost src = self@;
        proof {
            lemma_digits_end_bounds(src, start as int);
        }
        while Self::is_digit(self.peek(*current))
            invariant
                start < *current <= src.len(),
                digits_end(src, start as int) == digits_end(src, *current as int),
                src == self@,
            decreases src.len() - *current,
        {
            self.advance(current);
        }
        let d = *current;
        assert(forall|j: int| start <= j < d ==> crate::grammar::is_digit(#[trigger] src[j]));
        if self.peek(*current) == Some('.') && Self::is_digit(self.peek_next(*current)) {
            self.advance(current);
            proof {
                lemma_digits_end_bounds(src, d + 1);
            }
            while Self::is_digit(self.peek(*current))
                invariant
                    d < *current <= src.len(),
                    digits_end(src, d + 1) == digits_end(src, *current as int),
                    src == self@,
                decreases src.len() - *current,
            {
                self.advance(current);
            }
            assert(forall|j: int|
                start <= j < *current ==> #[trigger] src[j] == '.' || crate::grammar::is_digit(
                    src[j],
                ));
        }
        proof {
            lemma_no_newlines(src, start as int, *current as int);
        }
        let text = self.text(start, *current);
        self.create_token_literal(TokenType::NUMBER, start, *current, Literal::Number(text), line)
    }

    /// The kind of the word between two indices: its keyword, or `IDENTIFIER`.
    fn keyword_kind(&self, start: usize, end: usize) -> (r: TokenType)
        requires
            start <= end <= self@.len(),
        ensures
            r == word_kind(self@.subrange(start as int, end as int)),
    {
        if self.matches_word(start, end, "and") {
            TokenType::AND
        } else if self.matches_word(start, end, "class") {
            TokenType::CLASS
        } else if self.matches_word(start, end, "else") {
            TokenType::ELSE
        } else if self.matches_word(start, end, "false") {
            TokenType::FALSE
        } else if self.matches_word(start, end, "fun") {
            TokenType::FUN
        } else if self.matches_word(start, end, "for") {
            TokenType::FOR
        } else if self.matches_word(start, end, "if") {
            TokenType::IF
        } else if self.matches_word(start, end, "nil") {
            TokenType::NIL
        } else if self.matches_word(start, end, "or") {
            TokenType::OR
        } else if self.matches_word(start, end, "print") {
            TokenType::PRINT
        } else if self.matches_word(start, end, "return") {
            TokenType::RETURN
        } else if self.matches_word(start, end, "super") {
            TokenType::SUPER
        } else if self.matches_word(start, end, "this") {
            TokenType::THIS
        } else if self.matches_word(start, end, "true") {
            TokenType::TRUE
        } else if self.matches_word(start, end, "var") {
            TokenType::VAR
        } else if self.matches_word(start, end, "while") {
            TokenType::WHILE
        } else {
            TokenType::IDENTIFIER
        }
    }

    /// Scans an identifier or keyword whose first character, at `start`, was
    /// just consumed.
    fn identifier(&self, current: &mut usize, start: usize, line: usize) -> (r: Token)
        requires
            start < self@.len(),
            is_alpha(self@[start as int]),
            *old(current) == start + 1,
            line == line_at(self@, start as int),
        ensures
            *final(current) == word_end(self@, start as int),
            token_matches(
                self@,
                r,
                Span {
                    kind: word_kind(self@.subrange(start as int, *final(current) as int)),
                    start: start as int,
                    end: *final(current) as int,
                },
            ),
            line_at(self@, *final(current) as int) == line,
    {
        let ghost src = self@;
        proof {
            lemma_word_end_bounds(src, start as int);
        }
        while Self::is_alpha_numeric(self.peek(*current))
            invariant
                start < *current <= src.len(),
                word_end(src, start as int) == word_end(src, *current as int),
                src == self@,
            decreases src.len() - *current,
        {
            self.advance(current);
        }
        proof {
            lemma_no_newlines(src, start as int, *current as int);
        }
        let kind = self.keyword_kind(start, *current);
        self.create_token(kind, start, *current, line)
    }

    /// Scans a string literal whose opening quote, at `start`, was just
    /// consumed. Without a closing quote it reports the string and emits nothing.
    fn string(
        &self,
        current: &mut usize,
        start: usize,
        line: &mut usize,
        errors: &mut Vec<ScanError>,
    ) -> (r: Option<Token>)
        requires
            start < self@.len() < usize::MAX,
            self@[start as int] == '"',
            *old(current) == start + 1,
            *old(line) == line_at(self@, start as int),
        ensures
            *final(current) == lexeme_end(self@, start as int),
            *final(line) == line_at(self@, *final(current) as int),
            outcome(self@, start as int) == Outcome::Emit(TokenType::STRING) ==> r is Some
                && token_matches(
                self@,
                r->0,
                Span {
                    kind: TokenType::STRING,
                    start: start as int,
                    end: *final(current) as int,
                },
            ),
            outcome(self@, start as int) != Outcome::Emit(TokenType::STRING) ==> r is None,
            final(errors)@ == old(errors)@ + step_diagnostics(self@, start as int),
    {
        let ghost src = self@;
        let start_line = *line;
        proof {
            lemma_find_char_bounds(src, start + 1, '"');
        }
        while *current < self.source.len() && self.source[*current] != '"'
            invariant
                start < *current <= src.len() < usize::MAX,
                find_char(src, start + 1, '"') == find_char(src, *current as int, '"'),
                *line == line_at(src, *current as int),
                src == self@,
            decreases src.len() - *current,
        {
            proof {
                lemma_newlines_bound(src, *current as int);
            }
            if self.source[*current] == '\n' {
                *line += 1;
            }
            self.advance(current);
        }
        if *current >= self.source.len() {
            errors.push(ScanError::UnterminatedString { line: start_line });
            return None;
        }
        self.advance(current);
        let text = self.text(start + 1, *current - 1);
        Some(
            self.create_token_literal(
                TokenType::STRING,
                start,
                *current,
                Literal::String(text),
                start_line,
            ),
        )
    }

    /// Scans what begins at the cursor: at most one token, or one diagnostic.
    fn scan_token(&self, current: &mut usize, line: &mut usize, errors: &mut Vec<ScanError>) -> (r:
        Option<Token>)
        requires
            *old(current) < self@.len() < usize::MAX,
            *old(line) == line_at(self@, *old(current) as int),
        ensures
            *old(current) < *final(current) <= self@.len(),
            *final(current) == lexeme_end(self@, *old(current) as int),
            *final(line) == line_at(self@, *final(current) as int),
            step_spans(self@, *old(current) as int).len() == if r is Some { 1int } else { 0int },
            r is Some ==> token_matches(self@, r->0, step_spans(self@, *old(current) as int)[0]),
            final(errors)@ == old(errors)@ + step_diagnostics(self@, *old(current) as int),
    {
        let ghost src = self@;
        let start = *current;
        let c = self.advance(current);
        proof {
            lemma_step_advances(src, start as int);
            lemma_newlines_bound(src, start as int);
        }
        // the fixed-length tokens and comments; the rest is dispatched below
        let simple = match c {
            '(' => Some(TokenType::LEFT_PAREN),
            ')' => Some(TokenType::RIGHT_PAREN),
            '{' => Some(TokenType::LEFT_BRACE),
            '}' => Some(TokenType::RIGHT_BRACE),
            ',' => Some(TokenType::COMMA),
            '.' => Some(TokenType::DOT),
            '-' => Some(TokenType::MINUS),
            '+' => Some(TokenType::PLUS),
            ';' => Some(TokenType::SEMICOLON),
            '*' => Some(TokenType::STAR),
            '!' => Some(
                if self.check_next_char(current, '=') {
                    TokenType::BANG_EQUAL
                } else {
                    TokenType::BANG
                },
            ),
            '=' => Some(
                if self.check_next_char(current, '=') {
                    TokenType::EQUAL_EQUAL
                } else {
                    TokenType::EQUAL
                },
            ),
            '<' => Some(
                if self.check_next_char(current, '=') {
                    TokenType::LESS_EQUAL
                } else {
                    TokenType::LESS
                },
            ),
            '>' => Some(
                if self.check_next_char(current, '=') {
                    TokenType::GREATER_EQUAL
                } else {
                    TokenType::GREATER
                },
            ),
            '/' => {
                if self.check_next_char(current, '/') {
                    // a comment runs to the end of the line; the line break
                    // itself is left for the next step
                    proof {
                        lemma_find_char_bounds(src, start + 2, '\n');
                    }
                    while *current < self.source.len() && self.source[*current] != '\n'
                        invariant
                            start + 2 <= *current <= src.len(),
                            find_char(src, start + 2, '\n') == find_char(
                                src,
                                *current as int,
                                '\n',
                            ),
                            src == self@,
                        decreases src.len() - *current,
                    {
                        self.advance(current);
                    }
                    proof {
                        lemma_no_newlines(src, start as int, *current as int);
                    }
                    None
                } else {
                    Some(TokenType::SLASH)
                }
            },
            _ => None,
        };
        if let Some(kind) = simple {
            proof {
                lemma_no_newlines(src, start as int, *current as int);
            }
            return Some(self.create_token(kind, start, *current, *line));
        }
        match c {
            // a comment, consumed above, or whitespace
            '/' | ' ' | '\r' | '\t' => None,
            '\n' => {
                *line += 1;
                None
            },
            '"' => self.string(current, start, line, errors),
            _ => {
                if Self::is_digit(Some(c)) {
                    Some(self.number(current, start, *line))
                } else if Self::is_alpha(Some(c)) {
                    Some(self.identifier(current, start, *line))
                } else {
                    errors.push(ScanError::UnexpectedCharacter { line: *line, character: c });
                    None
                }
            },
        }
    }

    /// Scans the whole source. Every token is returned, the end-of-input
    /// token last; every diagnostic is appended to `errors`, in order.
    pub fn scan_tokens(&self, errors: &mut Vec<ScanError>) -> (tokens: Vec<Token>)
        requires
            self@.len() < usize::MAX,
        ensures
            scanned(self@, tokens@),
            final(errors)@ == old(errors)@ + diagnostics(self@),
    {
        let ghost src = self@;
        let mut tokens: Vec<Token> = Vec::new();
        let mut current: usize = 0;
        let mut line: usize = 1;
        let ghost mut emitted: Seq<Span> = seq![];
        while current < self.source.len()
            invariant
                current <= src.len() < usize::MAX,
                src == self@,
                line == line_at(src, current as int),
                emitted + spans_from(src, current as int) == spans_from(src, 0),
                tokens@.len() == emitted.len(),
                forall|k: int| 0 <= k < tokens@.len() ==> token_matches(src, tokens@[k], emitted[k]),
                errors@ + diagnostics_from(src, current as int) == old(errors)@ + diagnostics_from(
                    src,
                    0,
                ),
            decreases src.len() - current,
        {
            let ghost here = current as int;
            let ghost before = errors@;
            let token = self.scan_token(&mut current, &mut line, errors);
            proof {
                assert(spans_from(src, here) == step_spans(src, here) + spans_from(
                    src,
                    current as int,
                ));
                assert(emitted + spans_from(src, here) =~= (emitted + step_spans(src, here))
                    + spans_from(src, current as int));
                assert(before + diagnostics_from(src, here) =~= errors@ + diagnostics_from(
                    src,
                    current as int,
                ));
            }
            if let Some(t) = token {
                tokens.push(t);
            }
            proof {
                emitted = emitted + step_spans(src, here);
                assert(forall|k: int|
                    0 <= k < tokens@.len() ==> token_matches(src, tokens@[k], emitted[k]));
            }
        }
        let eof = Token {
            token_type: TokenType::EOF,
            lexeme: String::new(),
            literal: Literal::Empty,
            line,
        };
        assert(eof.lexeme@ =~= src.subrange(src.len() as int, src.len() as int));
        tokens.push(eof);
        proof {
            assert(emitted + seq![eof_span(src)] == token_spans(src));
            assert(errors@ =~= old(errors)@ + diagnostics(src));
        }
        tokens
    }
}

} // verus!
