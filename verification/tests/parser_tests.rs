use runa::ast::{Action, Rule};
use runa::error::{ParseError, ParseErrorKind};
use runa::parser::Parser;

fn parse_ok(input: &str) -> Vec<Rule> {
    let mut parser = Parser::new(input);
    parser.parse_rules().expect("expected a parse")
}

fn parse_err(input: &str) -> ParseError {
    let mut parser = Parser::new(input);
    parser.parse_rules().expect_err("expected a parse error")
}

#[test]
fn empty_input_is_an_empty_rule_list() {
    assert_eq!(parse_ok("").len(), 0);
    assert_eq!(parse_ok("   \n  # only a comment\n").len(), 0);
}

#[test]
fn full_rule_round_trip() {
    let rules = parse_ok("permit nopass keepenv alice as root cmd \"/bin/sh\"");
    assert_eq!(rules.len(), 1);
    let r = &rules[0];
    assert_eq!(r.action, Action::Permit);
    assert!(r.options.nopass);
    assert!(r.options.keepenv);
    assert!(!r.options.persist);
    assert!(!r.options.nolog);
    assert!(r.options.setenv.is_none());
    assert_eq!(r.identity, "alice");
    assert_eq!(r.target, "root");
    assert_eq!(r.cmd, Some("/bin/sh".to_string()));
    assert_eq!(r.args, None);
}

#[test]
fn target_defaults_to_root() {
    let rules = parse_ok("deny bob");
    assert_eq!(rules.len(), 1);
    assert_eq!(rules[0].action, Action::Deny);
    assert_eq!(rules[0].identity, "bob");
    assert_eq!(rules[0].target, "root");
    assert_eq!(rules[0].cmd, None);
    assert_eq!(rules[0].args, None);
}

#[test]
fn args_are_collected_in_order() {
    let rules = parse_ok("permit alice cmd /bin/ls args -l -a x");
    assert_eq!(rules[0].cmd, Some("/bin/ls".to_string()));
    assert_eq!(
        rules[0].args,
        Some(vec!["-l".to_string(), "-a".to_string(), "x".to_string()])
    );
}

#[test]
fn args_keyword_without_tokens_means_unconstrained() {
    let rules = parse_ok("permit alice cmd /bin/ls args");
    assert_eq!(rules[0].args, None);
}

#[test]
fn options_repeat_and_come_in_any_order() {
    let rules = parse_ok("permit nolog persist nolog nopass alice");
    let r = &rules[0];
    assert!(r.options.nopass);
    assert!(r.options.persist);
    assert!(r.options.nolog);
    assert!(!r.options.keepenv);
}

#[test]
fn bare_setenv_keeps_the_following_token() {
    let rules = parse_ok("permit setenv alice as root");
    assert_eq!(rules.len(), 1);
    assert_eq!(rules[0].identity, "alice");
    assert_eq!(rules[0].target, "root");
    assert_eq!(rules[0].options.setenv, None);
}

#[test]
fn bare_setenv_between_other_options() {
    let rules = parse_ok("permit nopass setenv keepenv bob");
    let r = &rules[0];
    assert!(r.options.nopass);
    assert!(r.options.keepenv);
    assert_eq!(r.identity, "bob");
}

#[test]
fn empty_quoted_target_falls_back_to_root() {
    let rules = parse_ok("permit alice as \"\"");
    assert_eq!(rules.len(), 1);
    assert_eq!(rules[0].target, "root");
}

#[test]
fn setenv_braced_body_is_skipped() {
    let rules = parse_ok("permit setenv { PATH HOME } alice as root");
    assert_eq!(rules.len(), 1);
    assert_eq!(rules[0].identity, "alice");
    assert_eq!(rules[0].target, "root");
    assert_eq!(rules[0].options.setenv, None);
}

#[test]
fn several_rules_stay_in_source_order() {
    let rules = parse_ok("permit alice\ndeny bob as admin\npermit :wheel cmd /bin/ls");
    assert_eq!(rules.len(), 3);
    assert_eq!(rules[0].identity, "alice");
    assert_eq!(rules[1].identity, "bob");
    assert_eq!(rules[1].target, "admin");
    assert_eq!(rules[2].identity, ":wheel");
}

#[test]
fn comment_line_contributes_no_rule() {
    let rules = parse_ok("# permit alice as root\ndeny alice as root");
    assert_eq!(rules.len(), 1);
    assert_eq!(rules[0].action, Action::Deny);
    assert_eq!(rules[0].identity, "alice");
    assert_eq!(rules[0].target, "root");
}

#[test]
fn unterminated_quote_fails_with_line_and_no_rules() {
    let err = parse_err("permit \"alice as root");
    assert_eq!(err.kind, ParseErrorKind::UnclosedQuote);
    assert_eq!(err.line, 1);
}

#[test]
fn unterminated_quote_as_first_token_fails() {
    let err = parse_err("\"alice as root");
    assert_eq!(err.kind, ParseErrorKind::UnclosedQuote);
    assert_eq!(err.line, 1);
}

#[test]
fn missing_action_is_an_error() {
    let err = parse_err("alice as root");
    assert_eq!(err.kind, ParseErrorKind::ExpectedAction);
    assert_eq!(err.line, 1);
}

#[test]
fn missing_identity_is_an_error() {
    let err = parse_err("permit nopass");
    assert_eq!(err.kind, ParseErrorKind::ExpectedIdentity);
    assert_eq!(err.line, 1);
}

#[test]
fn missing_target_after_as_is_an_error() {
    let err = parse_err("\n\npermit alice as");
    assert_eq!(err.kind, ParseErrorKind::ExpectedTarget);
    assert_eq!(err.line, 3);
}

#[test]
fn missing_path_after_cmd_is_an_error() {
    let err = parse_err("permit alice as root cmd");
    assert_eq!(err.kind, ParseErrorKind::ExpectedCommand);
    assert_eq!(err.line, 1);
}

#[test]
fn keyword_as_target_is_an_error_unquoted_but_fine_quoted() {
    let err = parse_err("permit alice as cmd");
    assert_eq!(err.kind, ParseErrorKind::ExpectedTarget);
    let rules = parse_ok("permit alice as \"cmd\"");
    assert_eq!(rules[0].target, "cmd");
}

#[test]
fn first_error_wins_and_aborts_everything() {
    let err = parse_err("permit alice as root\nbogus line here\npermit bob");
    assert_eq!(err.kind, ParseErrorKind::ExpectedAction);
    assert_eq!(err.line, 2);
}

#[test]
fn quoted_payloads_reach_the_rule_unchanged() {
    let rules = parse_ok("permit \"alice liddell\" as \"the queen\" cmd \"/bin/a b\" args \"x y\"");
    let r = &rules[0];
    assert_eq!(r.identity, "alice liddell");
    assert_eq!(r.target, "the queen");
    assert_eq!(r.cmd, Some("/bin/a b".to_string()));
    assert_eq!(r.args, Some(vec!["x y".to_string()]));
}
