//! Lexical scanner for a small scripting language: turns source text into
//! classified tokens, collecting diagnostics instead of stopping.
pub mod grammar;
pub mod guarantees;
pub mod lox;
pub mod scanner;
pub mod token;
