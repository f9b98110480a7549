use rlox::lox::Lox;
use rlox::scanner::{ScanError, TokenType};

#[test]
fn new_driver_has_no_error() {
    let lox = Lox::new();
    assert!(!lox.had_error());
}

#[test]
fn run_records_diagnostics() {
    let mut lox = Lox::new();
    let (tokens, errors) = lox.run("1 + 2".to_string());
    assert_eq!(tokens.len(), 4);
    assert!(errors.is_empty());
    assert!(!lox.had_error());

    let (tokens, errors) = lox.run("# 3".to_string());
    assert_eq!(tokens[0].token_type, TokenType::NUMBER);
    assert_eq!(errors, vec![ScanError::UnexpectedCharacter { line: 1, character: '#' }]);
    assert!(lox.had_error());

    let (_, errors) = lox.run("ok".to_string());
    assert!(errors.is_empty());
    assert!(lox.had_error());

    lox.reset_error();
    assert!(!lox.had_error());
}
