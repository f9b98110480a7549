use vstd::prelude::*;

verus! {

/// The closed set of token kinds.
#[allow(non_camel_case_types)]
#[derive(Debug, Clone, Copy, PartialEq, Eq, Structural)]
pub enum TokenType {
    // single character
    LEFT_PAREN,
    RIGHT_PAREN,
    LEFT_BRACE,
    RIGHT_BRACE,
    COMMA,
    DOT,
    MINUS,
    PLUS,
    SEMICOLON,
    SLASH,
    STAR,
    // one or two characters
    BANG,
    BANG_EQUAL,
    EQUAL,
    EQUAL_EQUAL,
    GREATER,
    GREATER_EQUAL,
    LESS,
    LESS_EQUAL,
    // literals
    IDENTIFIER,
    STRING,
    NUMBER,
    // keywords
    AND,
    CLASS,
    ELSE,
    FALSE,
    FUN,
    FOR,
    IF,
    NIL,
    OR,
    PRINT,
    RETURN,
    SUPER,
    THIS,
    TRUE,
    VAR,
    WHILE,
    // end of input
    EOF,
}

/// The decoded value a token carries; `Empty` for tokens that carry none.
///
/// A number is kept as its decimal text (digits, optionally a dot and more
/// digits); reading it as a 64-bit float is left to the consumer.
#[derive(Debug, Clone, PartialEq)]
pub enum Literal {
    Number(String),
    String(String),
    Empty,
}

/// One classified, positioned unit of the source.
#[derive(Debug, Clone)]
pub struct Token {
    pub token_type: TokenType,
    /// The exact source text of the token; empty for the end-of-input token.
    pub lexeme: String,
    pub literal: Literal,
    /// 1-based line on which the token's first character stands.
    pub line: usize,
}

/// A diagnostic reported while scanning; scanning goes on after it.
#[derive(Debug, Clone, Copy, PartialEq, Eq, Structural)]
pub enum ScanError {
    /// A character that starts no token, with the line it stands on.
    UnexpectedCharacter { line: usize, character: char },
    /// A string literal with no closing quote, with the line it begins on.
    UnterminatedString { line: usize },
}

} // verus!
