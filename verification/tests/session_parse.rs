use rmux_server::session_parse::{
    new_session_decision, new_session_needs_lookup, NewSessionDecision, NewSessionRequestShape,
};
use rmux_server::config_parse::{CommandError, ParseError};
use rmux_server::session_parse::{
    kill_session_removals, parse_attach_session_tokens, parse_kill_session_tokens, parse_new_session_tokens,
    parse_rename_session_tokens, parse_session_flags,
};

fn words(items: &[&str]) -> Vec<String> {
    items.iter().map(|s| s.to_string()).collect()
}

/// A target check that refuses words starting with `!`.
fn target_ok(t: &String) -> Result<(), String> {
    if t.starts_with('!') {
        Err(format!("can't find {t}"))
    } else {
        Ok(())
    }
}

/// The refusal of the command line's own rules (not of a target).
fn command_error(e: ParseError<String>) -> CommandError {
    match e {
        ParseError::Command(c) => c,
        ParseError::Target(t) => panic!("unexpected target refusal {t}"),
    }
}

fn unsupported(command: &str, flag: &str) -> CommandError {
    CommandError::UnsupportedFlag { command: command.to_string(), flag: flag.to_string() }
}

fn unexpected(command: &str, argument: &str) -> CommandError {
    CommandError::UnexpectedArgument { command: command.to_string(), argument: argument.to_string() }
}

fn missing(what: &str) -> CommandError {
    CommandError::MissingArgument { what: what.to_string() }
}

#[test]
fn new_session_reads_flags_size_and_command() {
    let t = parse_new_session_tokens(&words(&[
        "-d", "-s", "alpha", "-n", "logs", "-x", "120", "-e", "A=1", "-f", "no-output", "top",
        "-b",
    ]), &target_ok)
    .expect("parses");
    assert!(t.detached);
    assert_eq!(t.session_name, Some("alpha".to_string()));
    assert_eq!(t.window_name, Some("logs".to_string()));
    assert_eq!(t.cols, Some(120));
    assert_eq!(t.rows, None);
    assert_eq!(t.environment, Some(words(&["A=1"])));
    assert_eq!(t.flags, Some(words(&["no-output"])));
    assert_eq!(t.command, Some(words(&["top", "-b"])));
    assert!(!t.detach_other_clients && !t.kill_other_clients);
}

#[test]
fn new_session_kill_other_clients_implies_detaching_them() {
    let t = parse_new_session_tokens(&words(&["-X", "-A", "-P", "-F", "#{session_name}"]), &target_ok)
        .expect("parses");
    assert!(t.kill_other_clients && t.detach_other_clients);
    assert!(t.attach_if_exists && t.print_session_info);
    assert_eq!(t.print_format, Some("#{session_name}".to_string()));
    assert_eq!(t.command, None);
    assert_eq!(t.environment, None);
    assert_eq!(t.flags, None);
}

#[test]
fn new_session_double_dash_starts_the_command() {
    let t = parse_new_session_tokens(&words(&["-d", "--", "-x", "1"]), &target_ok).expect("parses");
    assert_eq!(t.cols, None);
    assert_eq!(t.command, Some(words(&["-x", "1"])));
    let t = parse_new_session_tokens(&words(&["--"]), &target_ok).expect("parses");
    assert_eq!(t.command, None);
}

#[test]
fn new_session_refusals() {
    let err = |items: &[&str]| parse_new_session_tokens(&words(items), &target_ok).err().map(command_error).expect("refused");
    assert_eq!(err(&["-q"]), unsupported("new-session", "-q"));
    assert_eq!(err(&["-dA"]), unsupported("new-session", "-dA"));
    assert_eq!(err(&["-s"]), missing("-s session"));
    assert_eq!(err(&["-y"]), missing("-y value"));
    assert_eq!(
        err(&["-y", "big"]),
        CommandError::InvalidNumber {
            command: "new-session".to_string(),
            flag: "-y".to_string(),
            value: "big".to_string(),
        }
    );
    assert_eq!(
        err(&["-t", "group", "-n", "logs"]),
        CommandError::Refused("command or window name given with target".to_string())
    );
    assert_eq!(
        err(&["-t", "group", "top"]),
        CommandError::Refused("command or window name given with target".to_string())
    );
    let t = parse_new_session_tokens(&words(&["-t", "group", "-d"]), &target_ok).expect("parses");
    assert_eq!(t.group_target, Some("group".to_string()));
}

#[test]
fn attach_session_tokens() {
    let t = parse_attach_session_tokens(&words(&["-t", "alpha", "-r", "-x", "-f", "read-only"]), &target_ok)
        .expect("parses");
    assert_eq!(t.target, Some("alpha".to_string()));
    assert!(t.read_only && t.kill_other_clients && t.detach_other_clients);
    assert_eq!(t.flags, Some(words(&["read-only"])));
    let t = parse_attach_session_tokens(&words(&[]), &target_ok).expect("parses");
    assert_eq!(t.target, None);
    assert_eq!(t.flags, None);
    assert!(!t.detach_other_clients);

    let err = |items: &[&str]| parse_attach_session_tokens(&words(items), &target_ok).err().map(command_error).expect("refused");
    assert_eq!(err(&["-q"]), unsupported("attach-session", "-q"));
    assert_eq!(err(&["--"]), unsupported("attach-session", "--"));
    assert_eq!(err(&["alpha"]), unexpected("attach-session", "alpha"));
    assert_eq!(err(&["-c"]), missing("-c working-directory"));
}

#[test]
fn kill_session_tokens() {
    assert_eq!(
        parse_kill_session_tokens(&words(&["-a", "-t", "alpha"]), &target_ok),
        Ok(("alpha".to_string(), true, false))
    );
    assert_eq!(
        parse_kill_session_tokens(&words(&["-C", "-t", "beta"]), &target_ok),
        Ok(("beta".to_string(), false, true))
    );
    assert_eq!(parse_kill_session_tokens(&words(&["-a"]), &target_ok), Err(ParseError::Command(missing("-t target"))));
    assert_eq!(
        parse_kill_session_tokens(&words(&["-z"]), &target_ok),
        Err(ParseError::Command(unsupported("kill-session", "-z")))
    );
    assert_eq!(
        parse_kill_session_tokens(&words(&["alpha"]), &target_ok),
        Err(ParseError::Command(unexpected("kill-session", "alpha")))
    );
}

#[test]
fn session_flags_accept_alerts_only_where_the_command_takes_them() {
    assert_eq!(
        parse_session_flags(&words(&["-a", "-t", "alpha"]), "next-window", &target_ok),
        Ok((Some("alpha".to_string()), true, false))
    );
    assert_eq!(
        parse_session_flags(&words(&["-a"]), "has-session", &target_ok),
        Err(ParseError::Command(unsupported("has-session", "-a")))
    );
    assert_eq!(parse_session_flags(&words(&[]), "last-window", &target_ok), Ok((None, false, false)));
    assert_eq!(
        parse_session_flags(&words(&["x"]), "lock-session", &target_ok),
        Err(ParseError::Command(unexpected("lock-session", "x")))
    );
}

#[test]
fn rename_session_tokens() {
    assert_eq!(
        parse_rename_session_tokens(&words(&["-t", "alpha", "beta"]), &target_ok),
        Ok((Some("alpha".to_string()), "beta".to_string()))
    );
    assert_eq!(
        parse_rename_session_tokens(&words(&["--", "-t"]), &target_ok),
        Ok((None, "-t".to_string()))
    );
    assert_eq!(
        parse_rename_session_tokens(&words(&["-t", "alpha"]), &target_ok),
        Err(ParseError::Command(missing("rename-session new-name")))
    );
    assert_eq!(
        parse_rename_session_tokens(&words(&["a", "b"]), &target_ok),
        Err(ParseError::Command(unexpected("rename-session", "b")))
    );
}

#[test]
fn kill_session_removes_the_target_or_every_other_session_in_name_order() {
    let names = words(&["gamma", "alpha", "beta", "Zulu"]);
    assert_eq!(kill_session_removals(&names, &"beta".to_string(), false), words(&["beta"]));
    assert_eq!(
        kill_session_removals(&names, &"beta".to_string(), true),
        words(&["Zulu", "alpha", "gamma"])
    );
    assert_eq!(
        kill_session_removals(&words(&["only"]), &"only".to_string(), true),
        Vec::<String>::new()
    );
}

#[test]
fn session_names_are_checked_where_they_are_given() {
    assert_eq!(
        parse_kill_session_tokens(&words(&["-t", "!gone", "-z"]), &target_ok),
        Err(ParseError::Target("can't find !gone".to_string()))
    );
    assert_eq!(
        parse_rename_session_tokens(&words(&["-t", "alpha", "!bad", "extra"]), &target_ok),
        Err(ParseError::Target("can't find !bad".to_string()))
    );
    assert_eq!(
        parse_new_session_tokens(&words(&["-s", "!bad", "-q"]), &target_ok).err(),
        Some(ParseError::Target("can't find !bad".to_string()))
    );
    assert_eq!(
        parse_attach_session_tokens(&words(&["-q", "-t", "!bad"]), &target_ok)
            .err()
            .map(command_error),
        Some(unsupported("attach-session", "-q"))
    );
}

fn new_session_request() -> NewSessionRequestShape {
    NewSessionRequestShape {
        has_group_target: false,
        has_window_name: false,
        has_command: false,
        has_session_name: true,
        attach_if_exists: true,
        detached: false,
        detach_other_clients: false,
        kill_other_clients: false,
    }
}

#[test]
fn new_session_request_with_group_target_and_command_is_refused() {
    let mut request = new_session_request();
    request.has_group_target = true;
    request.has_command = true;
    assert!(!new_session_needs_lookup(request));
    assert_eq!(new_session_decision(request, true), NewSessionDecision::RefuseNamedWindowInGroup);
    request.has_command = false;
    request.has_window_name = true;
    assert_eq!(new_session_decision(request, false), NewSessionDecision::RefuseNamedWindowInGroup);
    request.has_window_name = false;
    assert_eq!(new_session_decision(request, true), NewSessionDecision::Create);
}

#[test]
fn new_session_request_joins_an_existing_session_with_attach_if_exists() {
    let mut request = new_session_request();
    assert!(new_session_needs_lookup(request));
    assert_eq!(
        new_session_decision(request, true),
        NewSessionDecision::AttachExisting { detach_others: false, kill_others: false }
    );
    assert_eq!(new_session_decision(request, false), NewSessionDecision::Create);
    request.kill_other_clients = true;
    assert_eq!(
        new_session_decision(request, true),
        NewSessionDecision::AttachExisting { detach_others: true, kill_others: true }
    );
    request.kill_other_clients = false;
    request.detach_other_clients = true;
    assert_eq!(
        new_session_decision(request, true),
        NewSessionDecision::AttachExisting { detach_others: true, kill_others: false }
    );
    request.detached = true;
    assert_eq!(
        new_session_decision(request, true),
        NewSessionDecision::AttachExisting { detach_others: false, kill_others: false }
    );
    request.attach_if_exists = false;
    assert!(!new_session_needs_lookup(request));
    assert_eq!(new_session_decision(request, true), NewSessionDecision::Create);
    request.attach_if_exists = true;
    request.has_session_name = false;
    assert!(!new_session_needs_lookup(request));
    assert_eq!(new_session_decision(request, true), NewSessionDecision::Create);
}
