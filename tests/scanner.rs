use rlox::scanner::{Literal, ScanError, Scanner, Token, TokenType};

fn scan(source: &str) -> (Vec<Token>, Vec<ScanError>) {
    let scanner = Scanner::new(source.to_string());
    let mut errors = Vec::new();
    let tokens = scanner.scan_tokens(&mut errors);
    (tokens, errors)
}

fn kinds(tokens: &[Token]) -> Vec<TokenType> {
    tokens.iter().map(|t| t.token_type).collect()
}

fn number_value(literal: &Literal) -> f64 {
    match literal {
        Literal::Number(text) => text.parse::<f64>().unwrap(),
        other => panic!("not a number literal: {other:?}"),
    }
}

#[test]
fn test_scan_string() {
    let source = "\"this is a test string\"".to_string();
    let scanner = Scanner::new(source);
    let mut errors = Vec::new();
    let token = scanner.scan_tokens(&mut errors)[0].clone();
    assert_eq!(token.token_type, TokenType::STRING);
    // the lexeme is the source text, quotes included
    assert_eq!(token.lexeme, "\"this is a test string\"");
    assert_eq!(token.literal, Literal::String("this is a test string".to_string()));
    assert_eq!(token.line, 1);
}

#[test]
fn test_scan_num() {
    let source = "420 69 4 2 0 6 9".to_string();
    let scanner = Scanner::new(source);
    let mut errors = Vec::new();
    let token = scanner.scan_tokens(&mut errors)[0].clone();
    assert_eq!(token.token_type, TokenType::NUMBER);
    assert_eq!(token.lexeme, "420".to_string());
    assert_eq!(number_value(&token.literal), 420.0);
    assert_eq!(token.line, 1);
}

#[test]
fn test_scan_ids() {
    let source = "not notReserved words".to_string();
    let scanner = Scanner::new(source);
    let mut errors = Vec::new();
    let token = scanner.scan_tokens(&mut errors)[1].clone();
    assert_eq!(token.token_type, TokenType::IDENTIFIER);
    assert_eq!(token.lexeme, "notReserved".to_string());
    assert_eq!(token.literal, Literal::Empty);
    assert_eq!(token.line, 1);
}

#[test]
fn test_scan_reserved_words() {
    let source = "not true notReserved and class".to_string();
    let scanner = Scanner::new(source);
    let mut errors = Vec::new();
    let tokens = scanner.scan_tokens(&mut errors);
    let token_1 = tokens[1].clone();
    assert_eq!(token_1.token_type, TokenType::TRUE);
    assert_eq!(token_1.lexeme, "true".to_string());
    assert_eq!(token_1.literal, Literal::Empty);
    assert_eq!(token_1.line, 1);

    let token_2 = scanner.scan_tokens(&mut errors)[3].clone();
    assert_eq!(token_2.token_type, TokenType::AND);
    assert_eq!(token_2.lexeme, "and".to_string());
    assert_eq!(token_2.literal, Literal::Empty);
    assert_eq!(token_2.line, 1);

    let token_3 = scanner.scan_tokens(&mut errors)[4].clone();
    assert_eq!(token_3.token_type, TokenType::CLASS);
    assert_eq!(token_3.lexeme, "class".to_string());
    assert_eq!(token_3.literal, Literal::Empty);
    assert_eq!(token_3.line, 1);
}

#[test]
fn empty_source_gives_only_eof() {
    let (tokens, errors) = scan("");
    assert_eq!(kinds(&tokens), vec![TokenType::EOF]);
    assert_eq!(tokens[0].lexeme, "");
    assert_eq!(tokens[0].literal, Literal::Empty);
    assert_eq!(tokens[0].line, 1);
    assert!(errors.is_empty());
}

#[test]
fn every_scan_ends_with_eof() {
    for source in ["x = 1;", "\"open", "@#", "// only a comment", "a\nb\n"] {
        let (tokens, _) = scan(source);
        let last = tokens.last().unwrap();
        assert_eq!(last.token_type, TokenType::EOF);
        assert_eq!(last.lexeme, "");
        assert_eq!(last.literal, Literal::Empty);
        assert_eq!(tokens.iter().filter(|t| t.token_type == TokenType::EOF).count(), 1);
    }
}

#[test]
fn output_is_bounded_by_source_length() {
    for source in ["@@@@", "(((", "a b c", "\"x", "1.2.3"] {
        let (tokens, errors) = scan(source);
        assert!(tokens.len() - 1 + errors.len() <= source.chars().count());
    }
    let (tokens, errors) = scan("@@@@");
    assert_eq!(tokens.len(), 1);
    assert_eq!(errors.len(), 4);
}

#[test]
fn lexemes_are_source_text_in_order() {
    let source = "var x = \"hi\" >= 12.5; // done\nprint x;";
    let (tokens, _) = scan(source);
    let mut rest = source;
    for token in &tokens[..tokens.len() - 1] {
        let at = rest.find(token.lexeme.as_str()).unwrap();
        rest = &rest[at + token.lexeme.len()..];
    }
    assert_eq!(
        tokens.iter().map(|t| t.lexeme.as_str()).collect::<Vec<_>>(),
        vec!["var", "x", "=", "\"hi\"", ">=", "12.5", ";", "print", "x", ";", ""]
    );
}

#[test]
fn whitespace_and_comment_only_source() {
    let (tokens, errors) = scan("   \n// comment\n");
    assert_eq!(kinds(&tokens), vec![TokenType::EOF]);
    assert_eq!(tokens[0].line, 3);
    assert!(errors.is_empty());
}

#[test]
fn bang_without_equal_stays_bare() {
    let (tokens, _) = scan("(  )  !  ");
    assert_eq!(
        kinds(&tokens),
        vec![TokenType::LEFT_PAREN, TokenType::RIGHT_PAREN, TokenType::BANG, TokenType::EOF]
    );
}

#[test]
fn two_character_operators() {
    let (tokens, _) = scan("!=  ==  <=  >=");
    assert_eq!(
        kinds(&tokens),
        vec![
            TokenType::BANG_EQUAL,
            TokenType::EQUAL_EQUAL,
            TokenType::LESS_EQUAL,
            TokenType::GREATER_EQUAL,
            TokenType::EOF
        ]
    );
    assert_eq!(tokens[0].lexeme, "!=");
    assert_eq!(tokens[3].lexeme, ">=");
}

#[test]
fn one_character_operators() {
    let (tokens, _) = scan("! = < > / ( ) { } , . - + ; *");
    assert_eq!(
        kinds(&tokens),
        vec![
            TokenType::BANG,
            TokenType::EQUAL,
            TokenType::LESS,
            TokenType::GREATER,
            TokenType::SLASH,
            TokenType::LEFT_PAREN,
            TokenType::RIGHT_PAREN,
            TokenType::LEFT_BRACE,
            TokenType::RIGHT_BRACE,
            TokenType::COMMA,
            TokenType::DOT,
            TokenType::MINUS,
            TokenType::PLUS,
            TokenType::SEMICOLON,
            TokenType::STAR,
            TokenType::EOF
        ]
    );
}

#[test]
fn string_literal_and_unterminated_string() {
    let (tokens, errors) = scan("\"hello\"");
    assert_eq!(kinds(&tokens), vec![TokenType::STRING, TokenType::EOF]);
    assert_eq!(tokens[0].literal, Literal::String("hello".to_string()));
    assert_eq!(tokens[0].lexeme, "\"hello\"");
    assert!(errors.is_empty());

    let (tokens, errors) = scan("\"unterminated");
    assert_eq!(kinds(&tokens), vec![TokenType::EOF]);
    assert_eq!(errors, vec![ScanError::UnterminatedString { line: 1 }]);
}

#[test]
fn unterminated_string_reports_its_first_line() {
    let (tokens, errors) = scan("x\n\"open\nmore");
    assert_eq!(kinds(&tokens), vec![TokenType::IDENTIFIER, TokenType::EOF]);
    assert_eq!(errors, vec![ScanError::UnterminatedString { line: 2 }]);
    assert_eq!(tokens[1].line, 3);
}

#[test]
fn number_with_and_without_fraction() {
    let (tokens, _) = scan("123.45");
    assert_eq!(kinds(&tokens), vec![TokenType::NUMBER, TokenType::EOF]);
    assert_eq!(number_value(&tokens[0].literal), 123.45);
    assert_eq!(tokens[0].literal, Literal::Number("123.45".to_string()));

    let (tokens, _) = scan("123.");
    assert_eq!(kinds(&tokens), vec![TokenType::NUMBER, TokenType::DOT, TokenType::EOF]);
    assert_eq!(tokens[0].lexeme, "123");
    assert_eq!(number_value(&tokens[0].literal), 123.0);
}

#[test]
fn keywords_need_the_whole_word() {
    let (tokens, _) = scan("and or notand");
    assert_eq!(
        kinds(&tokens),
        vec![TokenType::AND, TokenType::OR, TokenType::IDENTIFIER, TokenType::EOF]
    );
    assert_eq!(tokens[2].lexeme, "notand");
}

#[test]
fn every_keyword() {
    let (tokens, _) = scan(
        "and class else false fun for if nil or print return super this true var while And _x1",
    );
    assert_eq!(
        kinds(&tokens),
        vec![
            TokenType::AND,
            TokenType::CLASS,
            TokenType::ELSE,
            TokenType::FALSE,
            TokenType::FUN,
            TokenType::FOR,
            TokenType::IF,
            TokenType::NIL,
            TokenType::OR,
            TokenType::PRINT,
            TokenType::RETURN,
            TokenType::SUPER,
            TokenType::THIS,
            TokenType::TRUE,
            TokenType::VAR,
            TokenType::WHILE,
            TokenType::IDENTIFIER,
            TokenType::IDENTIFIER,
            TokenType::EOF
        ]
    );
}

#[test]
fn multi_line_string_advances_line() {
    let (tokens, errors) = scan("\"one\ntwo\nthree\" after");
    assert!(errors.is_empty());
    assert_eq!(kinds(&tokens), vec![TokenType::STRING, TokenType::IDENTIFIER, TokenType::EOF]);
    assert_eq!(tokens[0].line, 1);
    assert_eq!(tokens[0].literal, Literal::String("one\ntwo\nthree".to_string()));
    assert_eq!(tokens[1].line, 3);
    assert_eq!(tokens[2].line, 3);
}

#[test]
fn unexpected_character_is_reported_and_skipped() {
    let (tokens, errors) = scan("a\n@ b");
    assert_eq!(kinds(&tokens), vec![TokenType::IDENTIFIER, TokenType::IDENTIFIER, TokenType::EOF]);
    assert_eq!(errors, vec![ScanError::UnexpectedCharacter { line: 2, character: '@' }]);
    assert_eq!(tokens[1].line, 2);
}

#[test]
fn comment_ends_at_line_break() {
    let (tokens, _) = scan("a // b c\nd / e");
    assert_eq!(
        kinds(&tokens),
        vec![
            TokenType::IDENTIFIER,
            TokenType::IDENTIFIER,
            TokenType::SLASH,
            TokenType::IDENTIFIER,
            TokenType::EOF
        ]
    );
    assert_eq!(tokens[1].lexeme, "d");
    assert_eq!(tokens[1].line, 2);
}

#[test]
fn multi_byte_characters_keep_boundaries() {
    let (tokens, errors) = scan("\"héllo wörld\" é x");
    assert_eq!(kinds(&tokens), vec![TokenType::STRING, TokenType::IDENTIFIER, TokenType::EOF]);
    assert_eq!(tokens[0].literal, Literal::String("héllo wörld".to_string()));
    assert_eq!(errors, vec![ScanError::UnexpectedCharacter { line: 1, character: 'é' }]);
}

#[test]
fn peek_and_advance_primitives() {
    let scanner = Scanner::new("a=".to_string());
    assert_eq!(scanner.peek(0), Some('a'));
    assert_eq!(scanner.peek(2), None);
    assert_eq!(scanner.peek_next(0), Some('='));
    assert_eq!(scanner.peek_next(1), None);
    let mut current: usize = 0;
    assert_eq!(scanner.advance(&mut current), 'a');
    assert_eq!(current, 1);
    assert!(!scanner.check_next_char(&mut current, '!'));
    assert_eq!(current, 1);
    assert!(scanner.check_next_char(&mut current, '='));
    assert_eq!(current, 2);
    assert!(!scanner.check_next_char(&mut current, '='));
    assert!(Scanner::is_digit(Some('7')));
    assert!(!Scanner::is_digit(Some('x')));
    assert!(!Scanner::is_digit(None));
    assert!(Scanner::is_alpha(Some('_')));
    assert!(Scanner::is_alpha_numeric(Some('9')));
}
