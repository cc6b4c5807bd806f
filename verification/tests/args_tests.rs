use runa::args::{parse, ArgError};

fn argv(items: &[&str]) -> Vec<String> {
    items.iter().map(|s| s.to_string()).collect()
}

#[test]
fn no_arguments_means_defaults() {
    let a = parse(&argv(&[])).unwrap();
    assert!(a.conf_path.is_none());
    assert!(a.user.is_none());
    assert!(!a.clear_timestamp);
    assert!(!a.non_interactive);
    assert!(!a.shell);
    assert!(a.command.is_empty());
}

#[test]
fn first_non_flag_starts_the_command() {
    let a = parse(&argv(&["-n", "ls", "-l", "/tmp"])).unwrap();
    assert!(a.non_interactive);
    assert_eq!(a.command, argv(&["ls", "-l", "/tmp"]));
}

#[test]
fn clustered_flags_all_apply() {
    let a = parse(&argv(&["-Lns", "true"])).unwrap();
    assert!(a.clear_timestamp);
    assert!(a.non_interactive);
    assert!(a.shell);
    assert_eq!(a.command, argv(&["true"]));
}

#[test]
fn value_glued_to_flag() {
    let a = parse(&argv(&["-C/etc/x.conf", "-uroot", "id"])).unwrap();
    assert_eq!(a.conf_path.as_deref(), Some("/etc/x.conf"));
    assert_eq!(a.user.as_deref(), Some("root"));
    assert_eq!(a.command, argv(&["id"]));
}

#[test]
fn value_as_next_argument() {
    let a = parse(&argv(&["-C", "/etc/x.conf", "-u", "operator", "id"])).unwrap();
    assert_eq!(a.conf_path.as_deref(), Some("/etc/x.conf"));
    assert_eq!(a.user.as_deref(), Some("operator"));
    assert_eq!(a.command, argv(&["id"]));
}

#[test]
fn value_flag_ends_its_cluster() {
    let a = parse(&argv(&["-nCconf", "id"])).unwrap();
    assert!(a.non_interactive);
    assert_eq!(a.conf_path.as_deref(), Some("conf"));
    assert_eq!(a.command, argv(&["id"]));
}

#[test]
fn missing_value_is_an_error() {
    assert_eq!(parse(&argv(&["-C"])).unwrap_err(), ArgError::MissingValue('C'));
    assert_eq!(parse(&argv(&["-n", "-u"])).unwrap_err(), ArgError::MissingValue('u'));
}

#[test]
fn unknown_flag_is_an_error() {
    assert_eq!(parse(&argv(&["-x"])).unwrap_err(), ArgError::UnknownFlag('x'));
    assert_eq!(parse(&argv(&["-Lq", "cmd"])).unwrap_err(), ArgError::UnknownFlag('q'));
}

#[test]
fn lone_dash_is_part_of_the_command() {
    let a = parse(&argv(&["-L", "-", "x"])).unwrap();
    assert!(a.clear_timestamp);
    assert_eq!(a.command, argv(&["-", "x"]));
}

#[test]
fn double_dash_ends_flags() {
    let a = parse(&argv(&["-n", "--", "-L", "x"])).unwrap();
    assert!(a.non_interactive);
    assert!(!a.clear_timestamp);
    assert_eq!(a.command, argv(&["-L", "x"]));
}
