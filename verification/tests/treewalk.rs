//! Tests of the tree-walking front end's pieces: the eager scanner, the
//! keyword table, tokens and the error collector.

use toylox::ast::error::ErrorHandler;
use toylox::ast::lang::Lang;
use toylox::ast::scanner::Scanner;
use toylox::ast::tokens::{Token, TokenType};

#[test]
fn scan_tokens_ends_with_eof() {
    let mut sc = Scanner::with_source("let x = 5;".to_string());
    let tokens = sc.scan_tokens().expect("clean scan");
    let kinds: Vec<TokenType> = tokens.iter().map(|t| t.type_of).collect();
    assert_eq!(
        kinds,
        vec![
            TokenType::Var,
            TokenType::Identifier,
            TokenType::Equal,
            TokenType::Number,
            TokenType::Semicolon,
            TokenType::EOF,
        ]
    );
}

#[test]
fn scan_tokens_carries_lexemes_and_literals() {
    let mut sc = Scanner::with_source("foo 12.5 \"hi\"".to_string());
    let tokens = sc.scan_tokens().expect("clean scan");
    assert_eq!(tokens[0].lexeme, "foo");
    assert_eq!(tokens[1].lexeme, "12.5");
    assert_eq!(tokens[1].literal, "12.5");
    assert_eq!(tokens[2].lexeme, "\"hi\"");
    assert_eq!(tokens[2].literal, "hi");
}

#[test]
fn scan_tokens_counts_lines() {
    let mut sc = Scanner::with_source("x\ny\nz".to_string());
    let tokens = sc.scan_tokens().expect("clean scan");
    assert_eq!(tokens[0].line, 1);
    assert_eq!(tokens[1].line, 2);
    assert_eq!(tokens[2].line, 3);
}

#[test]
fn scan_tokens_skips_comments() {
    let mut sc = Scanner::with_source("a // b c d\ne".to_string());
    let tokens = sc.scan_tokens().expect("clean scan");
    let kinds: Vec<TokenType> = tokens.iter().map(|t| t.type_of).collect();
    assert_eq!(
        kinds,
        vec![TokenType::Identifier, TokenType::Identifier, TokenType::EOF]
    );
}

#[test]
fn scan_tokens_rejects_bad_input() {
    let mut sc = Scanner::with_source("a # b".to_string());
    let err = sc.scan_tokens().expect_err("bad character");
    assert_eq!(err, "Failed to parse tokens");
    let mut sc2 = Scanner::with_source("\"open".to_string());
    assert!(sc2.scan_tokens().is_err());
}

#[test]
fn set_source_rescans_fresh() {
    let mut sc = Scanner::new();
    sc.set_source("+".to_string());
    let count_after_first = sc.scan_tokens().expect("clean scan").len();
    assert_eq!(count_after_first, 2); // Plus, EOF
}

#[test]
fn keyword_table_lookup() {
    let lang = Lang::new();
    assert_eq!(lang.lookup("and"), Some(TokenType::And));
    assert_eq!(lang.lookup("let"), Some(TokenType::Var));
    assert_eq!(lang.lookup("parent"), Some(TokenType::Super));
    assert_eq!(lang.lookup("fn"), Some(TokenType::Func));
    assert_eq!(lang.lookup("letter"), None);
    assert_eq!(lang.lookup(""), None);
}

#[test]
fn token_to_string_format() {
    let t = Token::new(
        TokenType::Number,
        "12".to_string(),
        "12".to_string(),
        4,
    );
    assert_eq!(t.to_string(), "Number 12 12");
    assert_eq!(t.kind_name(), "Number");
    assert_eq!(t.line, 4);
}

#[test]
fn error_handler_latches_and_records() {
    let mut h = ErrorHandler::new();
    assert!(!h.had_error());
    h.error(3, "something went wrong".to_string());
    assert!(h.had_error());
    h.report(7, "near here".to_string(), "worse".to_string());
    assert!(h.had_error());
    let records = h.records();
    assert_eq!(records.len(), 2);
    assert_eq!(records[0].line, 3);
    assert_eq!(records[0].found_at, "");
    assert_eq!(records[0].message, "something went wrong");
    assert_eq!(records[1].line, 7);
    assert_eq!(records[1].found_at, "near here");
    assert_eq!(records[1].message, "worse");
}
