use runa::ast::{Action, Rule};
use runa::matcher::{match_rule, permit, GroupEntry};
use runa::parser::Parser;
use runa::user::{Gid, Uid, User};

fn parse(input: &str) -> Vec<Rule> {
    let mut parser = Parser::new(input);
    parser.parse_rules().expect("config must parse")
}

fn alice() -> User {
    User {
        name: "alice".to_string(),
        uid: Uid::new(1000),
        gid: Gid::new(1000),
        shell: "/bin/sh".to_string(),
        dir: "/home/alice".to_string(),
    }
}

fn root_user() -> User {
    User {
        name: "root".to_string(),
        uid: Uid::new(0),
        gid: Gid::new(0),
        shell: "/bin/sh".to_string(),
        dir: "/root".to_string(),
    }
}

fn wheel_db() -> Vec<GroupEntry> {
    vec![
        GroupEntry { name: "wheel".to_string(), gid: Gid::new(10) },
        GroupEntry { name: "audio".to_string(), gid: Gid::new(63) },
    ]
}

fn no_args() -> Vec<String> {
    Vec::new()
}

#[test]
fn no_matching_rule_means_no_decision() {
    let rules = parse("permit alice as root");
    let r = permit(
        &rules,
        &root_user(),
        &vec![Gid::new(0)],
        &wheel_db(),
        "root",
        "/bin/sh",
        &no_args(),
    );
    assert!(r.is_none());
    let empty: Vec<Rule> = Vec::new();
    let r2 = permit(
        &empty,
        &alice(),
        &vec![Gid::new(1000)],
        &wheel_db(),
        "root",
        "/bin/sh",
        &no_args(),
    );
    assert!(r2.is_none());
}

#[test]
fn last_match_wins_deny_then_permit_reversed() {
    let groups = vec![Gid::new(1000)];
    let rules = parse("permit alice as root\ndeny alice as root");
    let r = permit(&rules, &alice(), &groups, &wheel_db(), "root", "/bin/sh", &no_args());
    assert_eq!(r.unwrap().action, Action::Deny);

    let rules2 = parse("deny alice as root\npermit alice as root");
    let r2 = permit(&rules2, &alice(), &groups, &wheel_db(), "root", "/bin/sh", &no_args());
    assert_eq!(r2.unwrap().action, Action::Permit);
}

#[test]
fn rule_targeting_alice_never_matches_root_target() {
    let rules = parse("permit bob as alice\npermit bob as alice cmd /bin/ls");
    let bob = User { name: "bob".to_string(), ..alice() };
    let r = permit(&rules, &bob, &vec![Gid::new(1000)], &wheel_db(), "root", "/bin/ls", &no_args());
    assert!(r.is_none());
}

#[test]
fn cmd_constraint_rejects_other_commands() {
    let rules = parse("permit alice as root cmd \"/bin/ls\"");
    let groups = vec![Gid::new(1000)];
    let hit = permit(&rules, &alice(), &groups, &wheel_db(), "root", "/bin/ls", &no_args());
    assert!(hit.is_some());
    let miss = permit(&rules, &alice(), &groups, &wheel_db(), "root", "/bin/cat", &no_args());
    assert!(miss.is_none());
}

#[test]
fn args_constraint_is_exact_element_for_element() {
    let rules = parse("permit alice as root cmd \"/bin/ls\" args \"-la\"");
    let groups = vec![Gid::new(1000)];
    let exact = vec!["-la".to_string()];
    assert!(permit(&rules, &alice(), &groups, &wheel_db(), "root", "/bin/ls", &exact).is_some());
    let split = vec!["-l".to_string(), "-a".to_string()];
    assert!(permit(&rules, &alice(), &groups, &wheel_db(), "root", "/bin/ls", &split).is_none());
    assert!(permit(&rules, &alice(), &groups, &wheel_db(), "root", "/bin/ls", &no_args()).is_none());
}

#[test]
fn unconstrained_rule_matches_any_command_and_args() {
    let rules = parse("permit alice as root");
    let groups = vec![Gid::new(1000)];
    let argv = vec!["anything".to_string()];
    assert!(permit(&rules, &alice(), &groups, &wheel_db(), "root", "/sbin/reboot", &argv).is_some());
}

#[test]
fn group_identity_matches_through_membership() {
    let rules = parse("permit :wheel as root");
    let in_wheel = vec![Gid::new(1000), Gid::new(10)];
    let not_in_wheel = vec![Gid::new(1000)];
    assert!(permit(&rules, &alice(), &in_wheel, &wheel_db(), "root", "/bin/sh", &no_args()).is_some());
    assert!(permit(&rules, &alice(), &not_in_wheel, &wheel_db(), "root", "/bin/sh", &no_args()).is_none());
}

#[test]
fn unresolvable_group_matches_nobody() {
    let rules = parse("permit :nosuchgroup as root");
    let groups = vec![Gid::new(0), Gid::new(10), Gid::new(63)];
    let r = permit(&rules, &root_user(), &groups, &wheel_db(), "root", "/bin/sh", &no_args());
    assert!(r.is_none());
}

#[test]
fn username_is_not_a_group_reference() {
    let rules = parse("permit wheel as root");
    let wheel_member = vec![Gid::new(10)];
    let r = permit(&rules, &alice(), &wheel_member, &wheel_db(), "root", "/bin/sh", &no_args());
    assert!(r.is_none());
    let wheel_user = User { name: "wheel".to_string(), ..alice() };
    let r2 = permit(&rules, &wheel_user, &no_groups(), &wheel_db(), "root", "/bin/sh", &no_args());
    assert!(r2.is_some());
}

fn no_groups() -> Vec<Gid> {
    Vec::new()
}

#[test]
fn match_rule_checks_one_rule_alone() {
    let rules = parse("deny alice as root cmd \"/bin/ls\" args \"-l\" \"-a\"");
    let groups = vec![Gid::new(1000)];
    let argv = vec!["-l".to_string(), "-a".to_string()];
    assert!(match_rule(&rules[0], &alice(), &groups, &wheel_db(), "root", "/bin/ls", &argv));
    let swapped = vec!["-a".to_string(), "-l".to_string()];
    assert!(!match_rule(&rules[0], &alice(), &groups, &wheel_db(), "root", "/bin/ls", &swapped));
}

#[test]
fn permit_returns_the_last_matching_rule_itself() {
    let rules = parse("deny alice\npermit alice cmd /bin/ls\npermit bob");
    let groups = vec![Gid::new(1000)];
    let r = permit(&rules, &alice(), &groups, &wheel_db(), "root", "/bin/ls", &no_args());
    let rule = r.unwrap();
    assert_eq!(rule.action, Action::Permit);
    assert_eq!(rule.identity, "alice");
    assert_eq!(rule.cmd, Some("/bin/ls".to_string()));
}

#[test]
fn quoted_string_payload_reaches_the_matcher() {
    let rules = parse("permit alice as root cmd \"/bin/with space\"");
    let groups = vec![Gid::new(1000)];
    assert!(permit(&rules, &alice(), &groups, &wheel_db(), "root", "/bin/with space", &no_args())
        .is_some());
    assert!(permit(&rules, &alice(), &groups, &wheel_db(), "root", "/bin/with", &no_args())
        .is_none());
}

#[test]
fn uid_gid_basics() {
    assert!(Uid::new(0).is_root());
    assert!(!Uid::new(1000).is_root());
    assert_eq!(Uid::new(7).as_raw(), 7);
    assert_eq!(Gid::new(42).as_raw(), 42);
    assert_eq!(Gid::new(5), Gid::new(5));
    assert_ne!(Gid::new(5), Gid::new(6));
}
