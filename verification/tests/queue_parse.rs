use rmux_server::config_parse::{CommandError, ParseError};
use rmux_server::queue_parse::{
    new_window_placement, parse_new_window_tokens, parse_source_file_tokens, NewWindowTokens,
    QueueArgument,
};

fn words(items: &[&str]) -> Vec<String> {
    items.iter().map(|s| s.to_string()).collect()
}

/// Queued arguments: `{}` stands for a command block, anything else is a word.
fn queued(items: &[&str]) -> Vec<QueueArgument> {
    items
        .iter()
        .map(|s| if *s == "{}" { QueueArgument::Block } else { QueueArgument::Word(s.to_string()) })
        .collect()
}

/// A target check that refuses words starting with `!`.
fn target_ok(t: &String) -> Result<(), String> {
    if t.starts_with('!') {
        Err(format!("can't find session: {t}"))
    } else {
        Ok(())
    }
}

fn parsed(items: &[&str]) -> NewWindowTokens {
    parse_new_window_tokens(&queued(items), &target_ok).expect("new-window parses")
}

fn refused(items: &[&str]) -> CommandError {
    match parse_new_window_tokens(&queued(items), &target_ok) {
        Ok(_) => panic!("new-window should be refused: {items:?}"),
        Err(ParseError::Command(e)) => e,
        Err(ParseError::Target(t)) => panic!("unexpected target refusal {t}"),
    }
}

#[test]
fn new_window_reads_detached_name_and_target() {
    let t = parsed(&["-t", "alp", "-d", "-n", "logs"]);
    assert_eq!(t.target, Some("alp".to_string()));
    assert_eq!(t.name, Some("logs".to_string()));
    assert!(t.detached);
    assert!(!t.after && !t.before);
    assert_eq!(t.start_directory, None);
    assert_eq!(t.environment, None);
    assert_eq!(t.command, None);
}

#[test]
fn new_window_collects_environment_in_order() {
    let t = parsed(&["-e", "A=1", "-e", "B=2"]);
    assert_eq!(t.environment, Some(words(&["A=1", "B=2"])));
    let t = parsed(&[]);
    assert_eq!(t.environment, None);
}

#[test]
fn new_window_command_follows_the_flags() {
    let t = parsed(&["-c", "/tmp", "top", "-d"]);
    assert_eq!(t.start_directory, Some("/tmp".to_string()));
    assert!(!t.detached);
    assert_eq!(t.command, Some(words(&["top", "-d"])));
}

#[test]
fn new_window_double_dash_lets_the_command_start_with_a_dash() {
    let t = parsed(&["-a", "--", "-x", "y"]);
    assert!(t.after);
    assert_eq!(t.command, Some(words(&["-x", "y"])));
    let t = parsed(&["-b", "--"]);
    assert!(t.before);
    assert_eq!(t.command, None);
}

#[test]
fn new_window_refuses_an_unknown_flag() {
    assert_eq!(
        refused(&["-d", "-x", "top"]),
        CommandError::UnexpectedArgument {
            command: "new-window".to_string(),
            argument: "-x".to_string(),
        }
    );
}

#[test]
fn new_window_refuses_missing_values() {
    assert_eq!(refused(&["-n"]), CommandError::MissingArgument { what: "-n name".to_string() });
    assert_eq!(
        refused(&["-c"]),
        CommandError::MissingArgument { what: "-c start-directory".to_string() }
    );
    assert_eq!(
        refused(&["-d", "-e"]),
        CommandError::MissingArgument { what: "-e name=value".to_string() }
    );
    assert_eq!(refused(&["-t"]), CommandError::MissingArgument { what: "-t target".to_string() });
}

#[test]
fn new_window_placement_moves_after_the_target() {
    assert_eq!(new_window_placement(true, false, 3), Ok(4));
    assert_eq!(new_window_placement(false, true, 3), Ok(3));
    assert_eq!(new_window_placement(false, false, u32::MAX), Ok(u32::MAX));
    assert_eq!(
        new_window_placement(true, false, u32::MAX),
        Err(CommandError::Refused("window index space exhausted for new-window".to_string()))
    );
}

#[test]
fn source_file_reads_flag_clusters_and_paths() {
    let t = parse_source_file_tokens(&queued(&["-qn", "-v", "a.conf", "b.conf"]), &target_ok).expect("parses");
    assert!(t.quiet && t.parse_only && t.verbose && !t.expand_paths);
    assert_eq!(t.paths, words(&["a.conf", "b.conf"]));
    assert_eq!(t.target, None);

    let t = parse_source_file_tokens(&queued(&["-Ft", "alpha:0.1", "x.conf"]), &target_ok).expect("parses");
    assert!(t.expand_paths);
    assert_eq!(t.target, Some("alpha:0.1".to_string()));
    assert_eq!(t.paths, words(&["x.conf"]));

    let t = parse_source_file_tokens(&queued(&["--", "-q"]), &target_ok).expect("parses");
    assert!(!t.quiet);
    assert_eq!(t.paths, words(&["-q"]));

    let t = parse_source_file_tokens(&queued(&["-q", "-"]), &target_ok).expect("parses");
    assert_eq!(t.paths, words(&["-"]));
}

#[test]
fn source_file_refusals() {
    let err = |items: &[&str]| match parse_source_file_tokens(&queued(items), &target_ok) {
        Err(ParseError::Command(e)) => e,
        _ => panic!("source-file should be refused: {items:?}"),
    };
    assert_eq!(err(&["-q"]), CommandError::MissingArgument { what: "path".to_string() });
    assert_eq!(
        err(&["-tq", "x", "a.conf"]),
        CommandError::Refused("source-file -t must be followed by a target argument".to_string())
    );
    assert_eq!(err(&["-t"]), CommandError::MissingArgument { what: "-t target".to_string() });
    assert_eq!(
        err(&["-qz", "a.conf"]),
        CommandError::UnsupportedFlag { command: "source-file".to_string(), flag: "-z".to_string() }
    );
    assert_eq!(
        err(&["--x", "a.conf"]),
        CommandError::UnsupportedFlag { command: "source-file".to_string(), flag: "--".to_string() }
    );
}

#[test]
fn new_window_checks_the_target_and_refuses_blocks() {
    assert_eq!(
        parse_new_window_tokens(&queued(&["-t", "!gone", "-x"]), &target_ok).err(),
        Some(ParseError::Target("can't find session: !gone".to_string()))
    );
    assert_eq!(
        refused(&["-d", "top", "{}"]),
        CommandError::Refused("new-window command must be a string argument".to_string())
    );
    assert_eq!(refused(&["-n", "{}"]), CommandError::BlockArgument { what: "-n name".to_string() });
    let t = parsed(&["-d"]);
    assert_eq!(t.command, None);
    assert_eq!(
        refused(&["{}", "-d"]),
        CommandError::Refused("new-window command must be a string argument".to_string())
    );
}

#[test]
fn source_file_checks_the_target_and_refuses_block_paths() {
    assert_eq!(
        parse_source_file_tokens(&queued(&["-t", "!p", "{}"]), &target_ok).err(),
        Some(ParseError::Target("can't find session: !p".to_string()))
    );
    assert_eq!(
        parse_source_file_tokens(&queued(&["-q", "a.conf", "{}"]), &target_ok).err(),
        Some(ParseError::Command(CommandError::Refused(
            "source-file path must be a string argument".to_string()
        )))
    );
    assert_eq!(
        parse_source_file_tokens(&queued(&["-t", "{}"]), &target_ok).err(),
        Some(ParseError::Command(CommandError::BlockArgument { what: "-t target".to_string() }))
    );
}
