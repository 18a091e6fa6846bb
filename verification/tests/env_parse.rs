use rmux_server::config_parse::{CommandError, ParseError};
use rmux_server::env_parse::{
    parse_set_environment_tokens, parse_show_environment_tokens, SetEnvironmentMode,
};
use rmux_server::option_scope::ScopeSelector;

fn words(items: &[&str]) -> Vec<String> {
    items.iter().map(|s| s.to_string()).collect()
}

/// A target check that refuses words starting with `!`.
fn target_ok(t: &String) -> Result<(), String> {
    if t.starts_with('!') {
        Err(format!("can't find {t}"))
    } else {
        Ok(())
    }
}

/// The refusal of the command line's own rules (not of a target).
fn command_error(e: ParseError<String>) -> CommandError {
    match e {
        ParseError::Command(c) => c,
        ParseError::Target(t) => panic!("unexpected target refusal {t}"),
    }
}

#[test]
fn set_environment_tokens() {
    let t = parse_set_environment_tokens(&words(&["-g", "FOO", "bar"]), &target_ok).expect("parses");
    assert_eq!(t.scope, ScopeSelector::Global);
    assert_eq!(t.name, "FOO");
    assert_eq!(t.value, "bar");
    assert_eq!(t.mode, SetEnvironmentMode::Assign);
    assert!(!t.hidden && !t.format);

    let t = parse_set_environment_tokens(&words(&["-t", "alpha", "-u", "-h", "FOO"]), &target_ok).expect("parses");
    assert_eq!(t.scope, ScopeSelector::Session("alpha".to_string()));
    assert_eq!(t.mode, SetEnvironmentMode::Unset);
    assert_eq!(t.value, "");
    assert!(t.hidden);

    let t = parse_set_environment_tokens(&words(&["-g", "-u", "-r", "-F", "X"]), &target_ok).expect("parses");
    assert_eq!(t.mode, SetEnvironmentMode::Clear);
    assert!(t.format);
}

#[test]
fn set_environment_refusals() {
    let err = |items: &[&str]| parse_set_environment_tokens(&words(items), &target_ok).err().map(command_error).expect("refused");
    assert_eq!(
        err(&["FOO", "bar"]),
        CommandError::Refused("set-environment requires exactly one of -g or -t target".to_string())
    );
    assert_eq!(
        err(&["-g", "-t", "a", "FOO", "bar"]),
        CommandError::Refused("set-environment requires exactly one of -g or -t target".to_string())
    );
    assert_eq!(
        err(&["-g"]),
        CommandError::MissingArgument { what: "set-environment name".to_string() }
    );
    assert_eq!(err(&["-g", "FOO"]), CommandError::Refused("no value specified".to_string()));
    assert_eq!(
        err(&["-g", "FOO", "bar", "baz"]),
        CommandError::UnexpectedArgument {
            command: "set-environment".to_string(),
            argument: "baz".to_string(),
        }
    );
}

#[test]
fn show_environment_tokens() {
    let t = parse_show_environment_tokens(&words(&["-g", "-s", "PATH"]), &target_ok).expect("parses");
    assert_eq!(t.scope, ScopeSelector::Global);
    assert_eq!(t.name, Some("PATH".to_string()));
    assert!(t.shell_format && !t.hidden);

    let t = parse_show_environment_tokens(&words(&["-t", "alpha", "-h"]), &target_ok).expect("parses");
    assert_eq!(t.scope, ScopeSelector::Session("alpha".to_string()));
    assert_eq!(t.name, None);

    let err = |items: &[&str]| parse_show_environment_tokens(&words(items), &target_ok).err().map(command_error).expect("refused");
    assert_eq!(
        err(&["-g", "-x"]),
        CommandError::UnsupportedFlag {
            command: "show-environment".to_string(),
            flag: "-x".to_string(),
        }
    );
    assert_eq!(
        err(&["-g", "A", "B"]),
        CommandError::UnexpectedArgument {
            command: "show-environment".to_string(),
            argument: "B".to_string(),
        }
    );
    assert_eq!(
        err(&[]),
        CommandError::Refused("show-environment requires exactly one of -g or -t target".to_string())
    );
}
