use rmux_server::config_parse::{CommandError, ParseError};
use rmux_server::pane_parse::{
    parse_break_pane_tokens, parse_kill_pane_tokens, parse_pipe_pane_tokens,
    parse_respawn_pane_tokens, parse_select_pane_tokens,
    parse_split_window_tokens, parse_swap_pane_tokens, SelectPaneDirection, SelectPaneKind,
    SplitDirection, SwapPaneDirection,
};

fn words(items: &[&str]) -> Vec<String> {
    items.iter().map(|s| s.to_string()).collect()
}

/// A target check that refuses words starting with `!`.
fn target_ok(t: &String) -> Result<(), String> {
    if t.starts_with('!') {
        Err(format!("can't find {t}"))
    } else {
        Ok(())
    }
}

/// The refusal of the command line's own rules (not of a target).
fn command_error(e: ParseError<String>) -> CommandError {
    match e {
        ParseError::Command(c) => c,
        ParseError::Target(t) => panic!("unexpected target refusal {t}"),
    }
}

fn refused(message: &str) -> CommandError {
    CommandError::Refused(message.to_string())
}

fn missing(what: &str) -> CommandError {
    CommandError::MissingArgument { what: what.to_string() }
}

fn leftover(command: &str, argument: &str) -> CommandError {
    CommandError::UnexpectedArgument { command: command.to_string(), argument: argument.to_string() }
}

#[test]
fn select_pane_kinds() {
    let t = parse_select_pane_tokens(&words(&["-t", "alpha:0.1"]), &target_ok).expect("parses");
    assert_eq!(t.target, Some("alpha:0.1".to_string()));
    assert_eq!(t.kind, SelectPaneKind::Select);
    assert_eq!(t.title, None);

    let t = parse_select_pane_tokens(&words(&["-L", "-R"]), &target_ok).expect("parses");
    assert_eq!(t.kind, SelectPaneKind::Adjacent(SelectPaneDirection::Right));

    let t = parse_select_pane_tokens(&words(&["-m", "-T", "logs"]), &target_ok).expect("parses");
    assert_eq!(t.kind, SelectPaneKind::Mark { clear: false });
    assert_eq!(t.title, Some("logs".to_string()));

    let t = parse_select_pane_tokens(&words(&["-M"]), &target_ok).expect("parses");
    assert_eq!(t.kind, SelectPaneKind::Mark { clear: true });

    let t = parse_select_pane_tokens(&words(&["-T", "top"]), &target_ok).expect("parses");
    assert_eq!(t.kind, SelectPaneKind::Select);
    assert_eq!(t.title, Some("top".to_string()));
}

#[test]
fn select_pane_refusals() {
    let err = |items: &[&str]| parse_select_pane_tokens(&words(items), &target_ok).err().map(command_error).expect("refused");
    assert_eq!(err(&["-m", "-M"]), refused("select-pane flags -m and -M cannot be used together"));
    assert_eq!(
        err(&["-U", "-T", "x"]),
        refused("select-pane -U/-D/-L/-R cannot be combined with -m, -M, or -T")
    );
    assert_eq!(
        err(&["-D", "-m"]),
        refused("select-pane -U/-D/-L/-R cannot be combined with -m, -M, or -T")
    );
    assert_eq!(err(&["-T"]), missing("-T title"));
    assert_eq!(err(&["-t"]), missing("-t target"));
    assert_eq!(err(&["-m", "extra"]), leftover("select-pane", "extra"));
    assert_eq!(err(&["-m", "-M", "extra"]), leftover("select-pane", "extra"));
}

#[test]
fn swap_pane_tokens() {
    let t = parse_swap_pane_tokens(&words(&["-s", "a:0.0", "-t", "a:0.1", "-d"]), &target_ok).expect("parses");
    assert_eq!(t.source, Some("a:0.0".to_string()));
    assert_eq!(t.target, Some("a:0.1".to_string()));
    assert_eq!(t.direction, None);
    assert!(t.detached && !t.preserve_zoom);

    let t = parse_swap_pane_tokens(&words(&["-U", "-Z"]), &target_ok).expect("parses");
    assert_eq!(t.direction, Some(SwapPaneDirection::Up));
    assert_eq!(t.source, None);
    assert!(t.preserve_zoom);
}

#[test]
fn swap_pane_refusals() {
    let err = |items: &[&str]| parse_swap_pane_tokens(&words(items), &target_ok).err().map(command_error).expect("refused");
    assert_eq!(err(&["-D", "-U"]), refused("swap-pane accepts only one of -D or -U"));
    assert_eq!(err(&["-D", "-s", "a"]), refused("swap-pane -D/-U does not accept -s"));
    assert_eq!(err(&[]), refused("swap-pane requires -s source-pane unless -D/-U is used"));
    assert_eq!(err(&["-s"]), missing("-s target"));
    assert_eq!(err(&["-D", "x"]), leftover("swap-pane", "x"));
}

#[test]
fn break_pane_tokens() {
    let t = parse_break_pane_tokens(&words(&["-d", "-P", "-F", "#{pane_id}", "-n", "logs", "-a"]), &target_ok, &target_ok)
        .expect("parses");
    assert!(t.detached && t.print_target && t.after && !t.before);
    assert_eq!(t.format, Some("#{pane_id}".to_string()));
    assert_eq!(t.name, Some("logs".to_string()));
    assert_eq!(t.source, None);

    let t = parse_break_pane_tokens(&words(&["-s", "a:0.1", "-t", "a:3", "-b"]), &target_ok, &target_ok).expect("parses");
    assert_eq!(t.source, Some("a:0.1".to_string()));
    assert_eq!(t.target, Some("a:3".to_string()));
    assert!(t.before);
}

#[test]
fn break_pane_refusals() {
    let err = |items: &[&str]| parse_break_pane_tokens(&words(items), &target_ok, &target_ok).err().map(command_error).expect("refused");
    assert_eq!(err(&["-a", "-b"]), refused("break-pane accepts only one of -a or -b"));
    assert_eq!(err(&["-b", "-a"]), refused("break-pane accepts only one of -a or -b"));
    assert_eq!(err(&["-F"]), missing("-F format"));
    assert_eq!(err(&["-n"]), missing("-n name"));
    assert_eq!(err(&["-d", "extra"]), leftover("break-pane", "extra"));
}

#[test]
fn split_window_tokens() {
    let t = parse_split_window_tokens(&words(&["-h", "-b", "-e", "A=1", "-c", "/tmp", "top", "-d"]), &target_ok)
        .expect("parses");
    assert_eq!(t.direction, SplitDirection::Horizontal);
    assert!(t.before);
    assert_eq!(t.environment, Some(words(&["A=1"])));
    assert_eq!(t.start_directory, Some("/tmp".to_string()));
    assert_eq!(t.command, Some(words(&["top", "-d"])));

    let t = parse_split_window_tokens(&words(&[]), &target_ok).expect("parses");
    assert_eq!(t.direction, SplitDirection::Vertical);
    assert_eq!(t.environment, None);
    assert_eq!(t.command, None);
    assert_eq!(t.target, None);

    let t = parse_split_window_tokens(&words(&["-t", "a:1", "--", "-x"]), &target_ok).expect("parses");
    assert_eq!(t.target, Some("a:1".to_string()));
    assert_eq!(t.command, Some(words(&["-x"])));
}

#[test]
fn split_window_refusals() {
    let err = |items: &[&str]| parse_split_window_tokens(&words(items), &target_ok).err().map(command_error).expect("refused");
    assert_eq!(err(&["-h", "-v"]), refused("split-window accepts only one of -h or -v"));
    assert_eq!(err(&["-v", "-v"]), refused("split-window accepts only one of -h or -v"));
    assert_eq!(err(&["-e"]), missing("-e name=value"));
    assert_eq!(err(&["-c"]), missing("-c start-directory"));
}

#[test]
fn respawn_pane_tokens() {
    let t = parse_respawn_pane_tokens(&words(&["-k", "-e", "A=1", "-e", "B=2", "-t", "a:0.0", "sh"]), &target_ok)
        .expect("parses");
    assert!(t.kill);
    assert_eq!(t.environment, Some(words(&["A=1", "B=2"])));
    assert_eq!(t.target, Some("a:0.0".to_string()));
    assert_eq!(t.command, Some(words(&["sh"])));

    let t = parse_respawn_pane_tokens(&words(&[]), &target_ok).expect("parses");
    assert!(!t.kill);
    assert_eq!(t.command, None);
    assert_eq!(t.environment, None);

    assert_eq!(
        parse_respawn_pane_tokens(&words(&["-e"]), &target_ok).err().map(command_error),
        Some(missing("-e environment"))
    );
}

#[test]
fn kill_pane_tokens() {
    assert_eq!(
        parse_kill_pane_tokens(&words(&["-a", "-t", "a:0.1"]), &target_ok),
        Ok((Some("a:0.1".to_string()), true))
    );
    assert_eq!(parse_kill_pane_tokens(&words(&[]), &target_ok), Ok((None, false)));
    assert_eq!(parse_kill_pane_tokens(&words(&["x"]), &target_ok), Err(ParseError::Command(leftover("kill-pane", "x"))));
    assert_eq!(parse_kill_pane_tokens(&words(&["-t"]), &target_ok), Err(ParseError::Command(missing("-t target"))));
}

#[test]
fn pipe_pane_tokens() {
    let t = parse_pipe_pane_tokens(&words(&["-t", "a:0.0", "cat", ">>", "log"]), &target_ok).expect("parses");
    assert_eq!(t.target, "a:0.0");
    assert!(!t.stdin && t.stdout && !t.once);
    assert_eq!(t.command, Some(words(&["cat", ">>", "log"])));

    let t = parse_pipe_pane_tokens(&words(&["-I", "-o", "-t", "p"]), &target_ok).expect("parses");
    assert!(t.stdin && !t.stdout && t.once);
    assert_eq!(t.command, None);

    let t = parse_pipe_pane_tokens(&words(&["-I", "-O", "-t", "p"]), &target_ok).expect("parses");
    assert!(t.stdin && t.stdout);

    assert_eq!(
        parse_pipe_pane_tokens(&words(&["-O", "cmd"]), &target_ok).err().map(command_error),
        Some(missing("-t target"))
    );
}

#[test]
fn pane_targets_are_checked_where_they_are_given() {
    assert_eq!(
        parse_select_pane_tokens(&words(&["-t", "!gone", "-m", "-M"]), &target_ok).err(),
        Some(ParseError::Target("can't find !gone".to_string()))
    );
    assert_eq!(
        parse_swap_pane_tokens(&words(&["-s", "!src", "-D"]), &target_ok).err(),
        Some(ParseError::Target("can't find !src".to_string()))
    );
    let window_only = |t: &String| -> Result<(), String> {
        if t.contains('.') {
            Err(format!("not a window: {t}"))
        } else {
            Ok(())
        }
    };
    assert_eq!(
        parse_break_pane_tokens(&words(&["-s", "a:0.1", "-t", "a:0.2"]), &target_ok, &window_only)
            .err(),
        Some(ParseError::Target("not a window: a:0.2".to_string()))
    );
    assert!(
        parse_break_pane_tokens(&words(&["-s", "a:0.1", "-t", "a:2"]), &target_ok, &window_only)
            .is_ok()
    );
    assert_eq!(
        parse_kill_pane_tokens(&words(&["-t", "!p", "x"]), &target_ok),
        Err(ParseError::Target("can't find !p".to_string()))
    );
}
