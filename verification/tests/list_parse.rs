use rmux_server::config_parse::{CommandError, ParseError};
use rmux_server::list_parse::{
    parse_clear_history_tokens, parse_list_panes_tokens, parse_list_sessions_tokens,
    parse_list_windows_tokens, parse_show_messages_tokens,
};

fn words(items: &[&str]) -> Vec<String> {
    items.iter().map(|s| s.to_string()).collect()
}

/// A target check that refuses words starting with `!`.
fn target_ok(t: &String) -> Result<(), String> {
    if t.starts_with('!') {
        Err(format!("can't find {t}"))
    } else {
        Ok(())
    }
}

fn cmd<T>(r: Result<T, ParseError<String>>) -> Option<CommandError> {
    match r {
        Err(ParseError::Command(e)) => Some(e),
        _ => None,
    }
}

fn unsupported(command: &str, flag: &str) -> CommandError {
    CommandError::UnsupportedFlag { command: command.to_string(), flag: flag.to_string() }
}

fn unexpected(command: &str, argument: &str) -> CommandError {
    CommandError::UnexpectedArgument { command: command.to_string(), argument: argument.to_string() }
}

#[test]
fn list_sessions_tokens() {
    let t = parse_list_sessions_tokens(&words(&["-F", "#{session_name}", "-r", "-O", "name"]))
        .expect("parses");
    assert!(t.reversed);
    assert_eq!(t.format, Some("#{session_name}".to_string()));
    assert_eq!(t.sort_order, Some("name".to_string()));
    assert_eq!(t.filter, None);
    let err = |items: &[&str]| parse_list_sessions_tokens(&words(items)).err().expect("refused");
    assert_eq!(err(&["-a"]), unsupported("list-sessions", "-a"));
    assert_eq!(err(&["x"]), unexpected("list-sessions", "x"));
    assert_eq!(err(&["-f"]), CommandError::MissingArgument { what: "-f filter".to_string() });
}

#[test]
fn list_windows_and_panes_tokens() {
    let t = parse_list_windows_tokens(&words(&["-t", "alpha", "-F", "#{window_index}"]), &target_ok).expect("parses");
    assert_eq!(t.target, "alpha");
    assert_eq!(t.format, Some("#{window_index}".to_string()));
    assert_eq!(
        cmd(parse_list_windows_tokens(&words(&["-F", "x"]), &target_ok)),
        Some(CommandError::MissingArgument { what: "-t target".to_string() })
    );
    let t = parse_list_panes_tokens(&words(&[]), &target_ok).expect("parses");
    assert_eq!(t.target, None);
    let t = parse_list_panes_tokens(&words(&["-t", "alpha:1"]), &target_ok).expect("parses");
    assert_eq!(t.target, Some("alpha:1".to_string()));
    assert_eq!(
        cmd(parse_list_panes_tokens(&words(&["-s"]), &target_ok)),
        Some(unsupported("list-panes", "-s"))
    );
}

#[test]
fn show_messages_and_clear_history_tokens() {
    let t = parse_show_messages_tokens(&words(&["-J", "-t", "client0"])).expect("parses");
    assert!(t.jobs && !t.terminals);
    assert_eq!(t.target_client, Some("client0".to_string()));
    assert_eq!(
        parse_show_messages_tokens(&words(&["-t"])).err(),
        Some(CommandError::MissingArgument { what: "-t target-client".to_string() })
    );
    let t = parse_clear_history_tokens(&words(&["-H", "-t", "a:0.0"]), &target_ok).expect("parses");
    assert!(t.reset_hyperlinks);
    assert_eq!(t.target, "a:0.0");
    assert_eq!(
        cmd(parse_clear_history_tokens(&words(&["-H"]), &target_ok)),
        Some(CommandError::MissingArgument { what: "-t target".to_string() })
    );
    assert_eq!(
        cmd(parse_clear_history_tokens(&words(&["-t", "p", "more"]), &target_ok)),
        Some(unexpected("clear-history", "more"))
    );
}

#[test]
fn list_targets_are_checked_where_they_are_given() {
    assert_eq!(
        parse_list_windows_tokens(&words(&["-t", "!gone", "x"]), &target_ok).err(),
        Some(ParseError::Target("can't find !gone".to_string()))
    );
    assert_eq!(
        parse_list_panes_tokens(&words(&["-t", "!gone", "-q"]), &target_ok).err(),
        Some(ParseError::Target("can't find !gone".to_string()))
    );
    assert_eq!(
        parse_clear_history_tokens(&words(&["-q", "-t", "!gone"]), &target_ok).err(),
        Some(ParseError::Command(CommandError::UnsupportedFlag {
            command: "clear-history".to_string(),
            flag: "-q".to_string(),
        }))
    );
}
