use rmux_server::config_parse::{
    is_set_option_flag_cluster, is_show_options_flag_cluster, parse_set_option_tokens,
    parse_show_options_tokens, CommandError, ParseError, SetOptionFlags,
};

/// A target check that refuses words starting with `!`.
fn target_ok(t: &String) -> Result<(), String> {
    if t.starts_with('!') {
        Err(format!("bad target {t}"))
    } else {
        Ok(())
    }
}

fn words(items: &[&str]) -> Vec<String> {
    items.iter().map(|s| s.to_string()).collect()
}

fn set_refusal(items: &[&str], force_window: bool) -> CommandError {
    match parse_set_option_tokens(&words(items), force_window, &target_ok) {
        Ok(_) => panic!("set-option should be refused: {items:?}"),
        Err(ParseError::Command(e)) => e,
        Err(ParseError::Target(t)) => panic!("unexpected target refusal {t}"),
    }
}

fn show_refusal(items: &[&str], force_window: bool) -> CommandError {
    match parse_show_options_tokens(&words(items), force_window, &target_ok) {
        Ok(_) => panic!("show-options should be refused: {items:?}"),
        Err(ParseError::Command(e)) => e,
        Err(ParseError::Target(t)) => panic!("unexpected target refusal {t}"),
    }
}

#[test]
fn set_option_flags_start_empty() {
    let flags = SetOptionFlags::new(false);
    assert_eq!(flags.scope_count(), 0);
    assert!(!flags.window);
    let window = SetOptionFlags::new(true);
    assert!(window.window);
    assert_eq!(window.scope_count(), 1);
}

#[test]
fn clusters_apply_each_flag() {
    let mut flags = SetOptionFlags::new(false);
    assert_eq!(flags.apply_cluster("set-option", "-gqo"), Ok(()));
    assert!(flags.global && flags.only_if_unset);
    assert!(!flags.append && !flags.unset);
    assert_eq!(flags.scope_count(), 0);

    let mut flags = SetOptionFlags::new(false);
    assert_eq!(flags.apply_cluster("set-option", "-spw"), Ok(()));
    assert_eq!(flags.scope_count(), 3);

    let mut flags = SetOptionFlags::new(false);
    assert_eq!(flags.apply_cluster("set-option", "-U"), Ok(()));
    assert!(flags.unset && flags.unset_pane_overrides && flags.window);
}

#[test]
fn unknown_flag_in_cluster_is_refused_after_earlier_flags() {
    let mut flags = SetOptionFlags::new(false);
    assert_eq!(
        flags.apply_cluster("set-window-option", "-gxa"),
        Err(CommandError::UnsupportedFlag {
            command: "set-window-option".to_owned(),
            flag: "-x".to_owned(),
        })
    );
    assert!(flags.global);
    assert!(!flags.append);
}

#[test]
fn set_option_flag_clusters() {
    assert!(is_set_option_flag_cluster("-gw", false));
    assert!(is_set_option_flag_cluster("-gqU", false));
    assert!(!is_set_option_flag_cluster("-g", false));
    assert!(!is_set_option_flag_cluster("--gw", false));
    assert!(!is_set_option_flag_cluster("gw", false));
    assert!(!is_set_option_flag_cluster("-gs", true));
    assert!(is_set_option_flag_cluster("-gw", true));
    assert!(!is_set_option_flag_cluster("-gx", false));
}

#[test]
fn show_options_flag_clusters() {
    assert!(is_show_options_flag_cluster("-gv"));
    assert!(!is_show_options_flag_cluster("-g"));
    assert!(!is_show_options_flag_cluster("--gv"));
    assert!(!is_show_options_flag_cluster("-gz"));
}

#[test]
fn set_option_tokens_read_flags_option_and_value() {
    let t = parse_set_option_tokens(&words(&["-g", "status", "off"]), false, &target_ok).expect("parses");
    assert!(t.flags.global);
    assert_eq!(t.flags.scope_count(), 0);
    assert_eq!(t.target, None);
    assert_eq!(t.option, "status");
    assert_eq!(t.value, Some("off".to_string()));

    let t = parse_set_option_tokens(&words(&["-t", "alpha", "-w", "main-pane-width", "120"]), false, &target_ok)
        .expect("parses");
    assert_eq!(t.target, Some("alpha".to_string()));
    assert!(t.flags.window);
    assert_eq!(t.option, "main-pane-width");

    let t = parse_set_option_tokens(&words(&["-ga", "status-left", "x"]), false, &target_ok).expect("parses");
    assert!(t.flags.global && t.flags.append);

    let t = parse_set_option_tokens(&words(&["-u", "status"]), false, &target_ok).expect("parses");
    assert!(t.flags.unset);
    assert_eq!(t.value, None);
}

#[test]
fn set_option_tokens_double_dash_ends_the_flags() {
    let t = parse_set_option_tokens(&words(&["--", "-g", "on"]), false, &target_ok).expect("parses");
    assert!(!t.flags.global);
    assert_eq!(t.option, "-g");
    assert_eq!(t.value, Some("on".to_string()));
}

#[test]
fn set_window_option_tokens_force_the_window_scope() {
    let t = parse_set_option_tokens(&words(&["-w", "mode-keys", "vi"]), true, &target_ok).expect("parses");
    assert!(t.flags.window);
    assert_eq!(t.flags.scope_count(), 1);
    assert_eq!(
        set_refusal(&["-s", "mode-keys", "vi"], true),
        CommandError::Refused("set-option accepts at most one of -s, -w, or -p".to_string())
    );
}

#[test]
fn set_option_tokens_refusals() {
    assert_eq!(
        set_refusal(&["-s", "-w", "status", "on"], false),
        CommandError::Refused("set-option accepts at most one of -s, -w, or -p".to_string())
    );
    assert_eq!(
        set_refusal(&["-g"], false),
        CommandError::MissingArgument { what: "set-option option".to_string() }
    );
    assert_eq!(
        set_refusal(&["-t"], false),
        CommandError::MissingArgument { what: "-t target".to_string() }
    );
    assert_eq!(
        set_refusal(&["status", "on", "extra"], false),
        CommandError::UnexpectedArgument {
            command: "set-option".to_string(),
            argument: "extra".to_string(),
        }
    );
}

#[test]
fn show_options_tokens_read_flags_and_name() {
    let t = parse_show_options_tokens(&words(&["-gv", "status"]), false, &target_ok).expect("parses");
    assert!(t.flags.global && t.flags.value_only);
    assert_eq!(t.name, Some("status".to_string()));
    assert_eq!(t.target, None);

    let t = parse_show_options_tokens(&words(&["-A", "-t", "alpha"]), false, &target_ok).expect("parses");
    assert!(t.flags.include_inherited);
    assert_eq!(t.target, Some("alpha".to_string()));
    assert_eq!(t.name, None);

    let t = parse_show_options_tokens(&words(&[]), true, &target_ok).expect("parses");
    assert!(t.flags.window);
}

#[test]
fn show_options_tokens_refusals() {
    assert_eq!(
        show_refusal(&["status", "extra"], false),
        CommandError::UnexpectedArgument {
            command: "show-options".to_string(),
            argument: "extra".to_string(),
        }
    );
    assert_eq!(
        show_refusal(&["-s"], true),
        CommandError::UnsupportedFlag {
            command: "show-window-options".to_string(),
            flag: "-s".to_string(),
        }
    );
    assert_eq!(
        show_refusal(&["-t"], false),
        CommandError::MissingArgument { what: "-t target".to_string() }
    );
}

#[test]
fn option_targets_are_checked_where_they_are_given() {
    assert_eq!(
        parse_set_option_tokens(&words(&["-t", "!x", "-s", "-w", "status"]), false, &target_ok).err(),
        Some(ParseError::Target("bad target !x".to_string()))
    );
    assert_eq!(
        parse_set_option_tokens(&words(&["-s", "-w", "-t", "!x"]), false, &target_ok).err(),
        Some(ParseError::Target("bad target !x".to_string()))
    );
    assert_eq!(
        parse_set_option_tokens(&words(&["status", "on", "-t", "!x"]), false, &target_ok).err(),
        Some(ParseError::Command(CommandError::UnexpectedArgument {
            command: "set-option".to_string(),
            argument: "-t".to_string(),
        }))
    );
    assert_eq!(
        parse_show_options_tokens(&words(&["-t", "!y", "a", "b"]), false, &target_ok).err(),
        Some(ParseError::Target("bad target !y".to_string()))
    );
}
