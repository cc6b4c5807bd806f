use runa::error::ParseErrorKind;
use runa::lexer::{Lexer, Token};

fn all_tokens(input: &str) -> Vec<Token> {
    let mut lexer = Lexer::new(input);
    let mut out = Vec::new();
    loop {
        let t = lexer.next_token().expect("unexpected lex error");
        let done = t == Token::EOF;
        out.push(t);
        if done {
            return out;
        }
    }
}

#[test]
fn empty_input_yields_eof_forever() {
    let mut lexer = Lexer::new("");
    assert_eq!(lexer.next_token().unwrap(), Token::EOF);
    assert_eq!(lexer.next_token().unwrap(), Token::EOF);
    assert_eq!(lexer.next_token().unwrap(), Token::EOF);
}

#[test]
fn keywords_map_to_their_kinds() {
    let toks = all_tokens("permit deny nopass nolog persist keepenv setenv as cmd args");
    assert_eq!(
        toks,
        vec![
            Token::Permit,
            Token::Deny,
            Token::Nopass,
            Token::Nolog,
            Token::Persist,
            Token::KeepEnv,
            Token::SetEnv,
            Token::As,
            Token::Cmd,
            Token::Args,
            Token::EOF,
        ]
    );
}

#[test]
fn plain_words_become_text() {
    let toks = all_tokens("alice :wheel /bin/ls");
    assert_eq!(
        toks,
        vec![
            Token::Text("alice".to_string()),
            Token::Text(":wheel".to_string()),
            Token::Text("/bin/ls".to_string()),
            Token::EOF,
        ]
    );
}

#[test]
fn braces_are_standalone_tokens() {
    let toks = all_tokens("setenv{PATH}x");
    assert_eq!(
        toks,
        vec![
            Token::SetEnv,
            Token::LBrace,
            Token::Text("PATH".to_string()),
            Token::RBrace,
            Token::Text("x".to_string()),
            Token::EOF,
        ]
    );
}

#[test]
fn quoted_strings_keep_spaces_and_keywords() {
    let toks = all_tokens("\"permit me\" \"\"");
    assert_eq!(
        toks,
        vec![
            Token::Text("permit me".to_string()),
            Token::Text("".to_string()),
            Token::EOF,
        ]
    );
}

#[test]
fn backslash_escapes_next_character() {
    let toks = all_tokens("\"a\\\"b\" \"c\\\\d\"");
    assert_eq!(
        toks,
        vec![
            Token::Text("a\"b".to_string()),
            Token::Text("c\\d".to_string()),
            Token::EOF,
        ]
    );
}

#[test]
fn comments_run_to_end_of_line() {
    let toks = all_tokens("# a whole comment line\npermit # trailing\nalice");
    assert_eq!(
        toks,
        vec![
            Token::Permit,
            Token::Text("alice".to_string()),
            Token::EOF,
        ]
    );
}

#[test]
fn unterminated_quote_reports_opening_line() {
    let mut lexer = Lexer::new("ok\n\n\"never closed");
    assert_eq!(lexer.next_token().unwrap(), Token::Text("ok".to_string()));
    let err = lexer.next_token().unwrap_err();
    assert_eq!(err.kind, ParseErrorKind::UnclosedQuote);
    assert_eq!(err.line, 3);
}

#[test]
fn backslash_at_end_of_input_is_unterminated() {
    let mut lexer = Lexer::new("\"abc\\");
    let err = lexer.next_token().unwrap_err();
    assert_eq!(err.kind, ParseErrorKind::UnclosedQuote);
    assert_eq!(err.line, 1);
}

#[test]
fn line_numbers_advance_on_newlines() {
    let mut lexer = Lexer::new("a\nb\n\nc \"x");
    assert_eq!(lexer.next_token().unwrap(), Token::Text("a".to_string()));
    assert_eq!(lexer.line, 1);
    assert_eq!(lexer.next_token().unwrap(), Token::Text("b".to_string()));
    assert_eq!(lexer.line, 2);
    assert_eq!(lexer.next_token().unwrap(), Token::Text("c".to_string()));
    assert_eq!(lexer.line, 4);
    let err = lexer.next_token().unwrap_err();
    assert_eq!(err.line, 4);
}
