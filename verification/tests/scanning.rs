use rlox::RunOutcome;
use rlox::interpreter::Interpreter;
use rlox::run;
use rlox::scanner::scan;
use rlox::source::Source;
use rlox::token::Token;
use rlox::token::TokenType;
use rlox::token::token_type_eq;

fn scan_source(source: &str) -> Vec<Token> {
    scan(Source::new(source)).expect("scanning should succeed")
}

#[test]
fn tokens_end_with_eof() {
    let tokens = scan_source("print 1;");
    assert!(matches!(tokens.last().unwrap().token_type, TokenType::Eof));
    assert_eq!(tokens.len(), 4);
}

#[test]
fn string_literal_drops_quotes() {
    let tokens = scan_source("\"hello\"");
    match &tokens[0].token_type {
        TokenType::StrLit(s) => assert_eq!(s, "hello"),
        _ => panic!("expected a string literal"),
    }
    assert_eq!(tokens[0].lexeme, "\"hello\"");
}

#[test]
fn comments_and_whitespace_vanish() {
    let tokens = scan_source("// a comment\n  print // more\n 1;");
    let kinds: Vec<&TokenType> = tokens.iter().map(|t| &t.token_type).collect();
    assert_eq!(kinds.len(), 4);
    assert!(matches!(kinds[0], TokenType::Print));
    assert!(matches!(kinds[1], TokenType::Number(_)));
    assert!(matches!(kinds[2], TokenType::Semicolon));
    assert!(matches!(kinds[3], TokenType::Eof));
}

#[test]
fn line_numbers_advance_on_newlines() {
    let tokens = scan_source("print\n\n1;");
    assert_eq!(tokens[0].line, 1);
    assert_eq!(tokens[1].line, 3);
}

#[test]
fn two_character_operators_win() {
    let tokens = scan_source("= == ! != < <= > >=");
    let expected = [
        TokenType::Equal,
        TokenType::EqualEqual,
        TokenType::Bang,
        TokenType::BangEqual,
        TokenType::Less,
        TokenType::LessEqual,
        TokenType::Greater,
        TokenType::GreaterEqual,
        TokenType::Eof,
    ];
    assert_eq!(tokens.len(), expected.len());
    for (t, e) in tokens.iter().zip(expected.iter()) {
        assert!(token_type_eq(&t.token_type, e));
    }
}

#[test]
fn keywords_are_recognised() {
    let tokens = scan_source("and class else false for fun if nil or print return super this true var while andx");
    assert!(matches!(tokens[0].token_type, TokenType::And));
    assert!(matches!(tokens[15].token_type, TokenType::While));
    match &tokens[16].token_type {
        TokenType::Identifier(s) => assert_eq!(s, "andx"),
        _ => panic!("expected an identifier"),
    }
}

#[test]
fn unexpected_character_is_reported() {
    let report = scan(Source::new("@")).expect_err("scanning should fail");
    assert_eq!(report.to_display_string(), "[Line 1] Error: Unexpected character @\n");
}

#[test]
fn unterminated_string_is_reported() {
    let report = scan(Source::new("\"abc")).expect_err("scanning should fail");
    let text = report.to_display_string();
    assert!(text.contains("Unterminated string"), "{text}");
}

#[test]
fn number_lexemes_round_trip_through_display() {
    let mut interpreter = Interpreter::new(0);
    let outcome = run("print 12.25; print 100;", &mut interpreter, 1000);
    assert!(matches!(outcome, RunOutcome::Success));
    assert_eq!(interpreter.output, vec!["12.25".to_string(), "100".to_string()]);
}

#[test]
fn lexemes_rescan_to_the_same_tokens() {
    let source = "fun add(x, y) { return x + y; } // comment\nprint add(2, 3.5) >= \"s\";";
    let first = scan_source(source);
    let mut rebuilt = String::new();
    for t in first.iter() {
        rebuilt.push_str(&t.lexeme);
        rebuilt.push(' ');
    }
    let second = scan_source(&rebuilt);
    assert_eq!(first.len(), second.len());
    for (a, b) in first.iter().zip(second.iter()) {
        assert!(token_type_eq(&a.token_type, &b.token_type));
    }
}

#[test]
fn stray_characters_spoil_the_following_number() {
    let report = scan(Source::new("@1")).expect_err("scanning should fail");
    let text = report.to_display_string();
    assert_eq!(
        text,
        "[Line 1] Error: Unexpected character @\n[Line 1] Error: @1 is not a valid number\n",
    );
}
