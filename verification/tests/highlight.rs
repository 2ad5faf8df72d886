use sam_toolkit::data::ABOUT_PROGRAM;
use sam_toolkit::highlight::{highlight_line, highlight_program, program_lines, Token, TokenKind};

fn plain(tokens: &[Token]) -> String {
    tokens.iter().map(|token| token.text.as_str()).collect()
}

fn kinds(tokens: &[Token]) -> Vec<TokenKind> {
    tokens.iter().map(|token| token.kind).collect()
}

#[test]
fn highlights_the_program() {
    let lines = program_lines();
    assert_eq!(lines.len(), ABOUT_PROGRAM.lines().count());
    let text = plain(&highlight_line(r#"let github = "SamChou19815";"#, false).0);
    assert_eq!(text, r#"let github = "SamChou19815";"#);
}

#[test]
fn numbers_and_calls_get_styled() {
    let (tokens, _) = highlight_line("Developer.init(github, 42)", false);
    assert!(tokens.iter().any(|t| t.kind == TokenKind::Function));
    assert!(tokens.iter().any(|t| t.kind == TokenKind::Number));
    // A type followed by '.' stays a type, not a call.
    let (tokens, _) = highlight_line("Developer.sam()", false);
    assert!(tokens.iter().any(|t| t.kind == TokenKind::Type));
    assert!(tokens.iter().any(|t| t.kind == TokenKind::Function));
}

#[test]
fn every_line_puts_back_together() {
    for (tokens, source) in program_lines().iter().zip(ABOUT_PROGRAM.lines()) {
        assert_eq!(plain(tokens), source);
    }
}

#[test]
fn tokens_of_a_declaration() {
    let (tokens, open) = highlight_line(r#"let github = "SamChou19815";"#, false);
    assert!(!open);
    let texts: Vec<&str> = tokens.iter().map(|t| t.text.as_str()).collect();
    assert_eq!(texts, vec!["let", " ", "github", " ", "=", " ", "\"SamChou19815\"", ";"]);
    assert_eq!(
        kinds(&tokens),
        vec![
            TokenKind::Keyword,
            TokenKind::Plain,
            TokenKind::Plain,
            TokenKind::Plain,
            TokenKind::Plain,
            TokenKind::Plain,
            TokenKind::Str,
            TokenKind::Plain,
        ]
    );
}

#[test]
fn call_after_spaces_is_a_function() {
    let (tokens, _) = highlight_line("init  (x)", false);
    assert_eq!(tokens[0].text, "init");
    assert_eq!(tokens[0].kind, TokenKind::Function);
}

#[test]
fn block_comment_carries_over_lines() {
    let (tokens, open) = highlight_line("a /* b", false);
    assert!(open);
    assert_eq!(tokens.last().unwrap().text, "/* b");
    assert_eq!(tokens.last().unwrap().kind, TokenKind::Comment);
    let (tokens, open) = highlight_line("c */ d", true);
    assert!(!open);
    assert_eq!(tokens[0].text, "c */");
    assert_eq!(tokens[0].kind, TokenKind::Comment);
    assert_eq!(plain(&tokens), "c */ d");
}

#[test]
fn program_threads_comment_state() {
    let lines = highlight_program("/* one\ntwo */ x\n// three");
    assert_eq!(lines.len(), 3);
    assert_eq!(lines[1][0].text, "two */");
    assert_eq!(lines[1][0].kind, TokenKind::Comment);
    assert_eq!(lines[2][0].kind, TokenKind::Comment);
    assert_eq!(lines[2][0].text, "// three");
}

#[test]
fn unterminated_string_runs_to_the_end() {
    let (tokens, _) = highlight_line("\"abc", false);
    assert_eq!(tokens.len(), 1);
    assert_eq!(tokens[0].kind, TokenKind::Str);
    assert_eq!(tokens[0].text, "\"abc");
}
