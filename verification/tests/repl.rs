use alang::repl::{classify_line, ReplInput};

#[test]
fn blank_lines() {
    assert!(matches!(classify_line(""), ReplInput::Blank));
    assert!(matches!(classify_line("  \t\n"), ReplInput::Blank));
    assert!(matches!(classify_line("\u{3000}\u{a0}"), ReplInput::Blank));
}

#[test]
fn exit_command() {
    assert!(matches!(classify_line("exit\n"), ReplInput::Exit));
    assert!(matches!(classify_line("  exit  "), ReplInput::Exit));
    assert!(!matches!(classify_line("exits"), ReplInput::Exit));
}

#[test]
fn source_lines_are_trimmed() {
    match classify_line("  a := 1;\r\n") {
        ReplInput::Source(s) => assert_eq!(s, "a := 1;"),
        _ => panic!("expected source"),
    }
    match classify_line("EXIT") {
        ReplInput::Source(s) => assert_eq!(s, "EXIT"),
        _ => panic!("expected source"),
    }
}

use alang::repl::{line_tokens, LineEnd};
use alang::token::Token;

#[test]
fn line_tokens_up_to_the_end() {
    let (ts, end) = line_tokens(b"a := 12;");
    assert_eq!(
        ts,
        vec![Token::Ident("a".to_string()), Token::Assign, Token::Int(12), Token::Semicolon]
    );
    assert!(matches!(end, LineEnd::End));
}

#[test]
fn line_tokens_stop_at_the_first_none() {
    let (ts, end) = line_tokens(b"x + , y");
    assert_eq!(ts, vec![Token::Ident("x".to_string())]);
    assert!(matches!(end, LineEnd::End));
}

#[test]
fn line_tokens_before_an_unexpected_char() {
    let (ts, end) = line_tokens(b"x , y");
    assert_eq!(ts, vec![Token::Ident("x".to_string())]);
    assert!(matches!(end, LineEnd::Unexpected(b',')));
}

#[test]
fn line_tokens_that_repeat_for_ever() {
    let (ts, end) = line_tokens(b"a:");
    assert_eq!(ts, vec![Token::Ident("a".to_string())]);
    match end {
        LineEnd::Forever(t) => assert_eq!(t, Token::Colon),
        _ => panic!("expected a repeating token"),
    }
}
