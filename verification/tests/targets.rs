use rmux_server::targets::{
    hook_target_find_type, new_window_target_is_session, queue_target_resolution_enabled,
    resolve_queue_target_arguments, short_flag_argument_parts, TargetFindType,
};

fn strings(args: &[&str]) -> Vec<String> {
    args.iter().map(|a| (*a).to_owned()).collect()
}

fn resolve(flag: char, value: &String) -> Result<String, String> {
    if value == "missing" {
        Err(format!("can't find {value}"))
    } else {
        Ok(format!("{value}:{flag}"))
    }
}

#[test]
fn new_window_targets_that_name_sessions() {
    assert!(new_window_target_is_session("work"));
    assert!(new_window_target_is_session("1a"));
    assert!(new_window_target_is_session("{other}"));
    for window in [
        "work:1", "work.0", "@3", "%2", "+1", "-1", "7", "+7", "!", "^", "$", "{start}", "{last}",
        "{end}", "{next}", "{previous}",
    ] {
        assert!(!new_window_target_is_session(window), "{window}");
    }
    // Too large for a window index: a session name.
    assert!(new_window_target_is_session("4294967296"));
    assert!(!new_window_target_is_session("4294967295"));
}

#[test]
fn short_flag_parts_split_attached_values() {
    assert_eq!(short_flag_argument_parts("-t"), Some(('t', None)));
    assert_eq!(short_flag_argument_parts("-twork:1"), Some(('t', Some("work:1".to_owned()))));
    assert_eq!(short_flag_argument_parts("--"), None);
    assert_eq!(short_flag_argument_parts("--target"), None);
    assert_eq!(short_flag_argument_parts("-"), None);
    assert_eq!(short_flag_argument_parts("t"), None);
    assert_eq!(short_flag_argument_parts("-é1"), Some(('é', Some("1".to_owned()))));
}

#[test]
fn queued_commands_with_target_resolution() {
    for command in ["new-window", "send-keys", "set-option", "switch-client", "break-pane"] {
        assert!(queue_target_resolution_enabled(command), "{command}");
    }
    for command in ["new-session", "list-sessions", "kill-server", "source-file", ""] {
        assert!(!queue_target_resolution_enabled(command), "{command}");
    }
}

#[test]
fn hook_targets_follow_flags_then_shape() {
    assert_eq!(hook_target_find_type("work", &strings(&["-p"])), TargetFindType::Pane);
    assert_eq!(hook_target_find_type("work:1.2", &strings(&["-w"])), TargetFindType::Window);
    assert_eq!(hook_target_find_type("%3", &[]), TargetFindType::Pane);
    assert_eq!(hook_target_find_type("work:1.2", &[]), TargetFindType::Pane);
    assert_eq!(hook_target_find_type("@4", &[]), TargetFindType::Window);
    assert_eq!(hook_target_find_type("work:2", &[]), TargetFindType::Window);
    assert_eq!(hook_target_find_type("work:", &[]), TargetFindType::Session);
    assert_eq!(hook_target_find_type("work", &strings(&["-g", "-t"])), TargetFindType::Session);
}

#[test]
fn queued_target_values_are_resolved() {
    assert_eq!(
        resolve_queue_target_arguments("select-pane", strings(&["-t", "x", "-Z"]), &['t'], &resolve),
        Ok(strings(&["-t", "x:t", "-Z"]))
    );
    assert_eq!(
        resolve_queue_target_arguments("swap-pane", strings(&["-sa", "-d", "-tb"]), &['s', 't'], &resolve),
        Ok(strings(&["-s", "a:s", "-d", "-t", "b:t"]))
    );
    assert_eq!(
        resolve_queue_target_arguments("select-pane", strings(&["-t"]), &['t'], &resolve),
        Ok(strings(&["-t"]))
    );
    assert_eq!(
        resolve_queue_target_arguments("send-keys", strings(&["--", "-t", "x"]), &['t'], &resolve),
        Ok(strings(&["--", "-t", "x"]))
    );
    assert_eq!(
        resolve_queue_target_arguments("kill-pane", strings(&["-t", "missing", "-t", "x"]), &['t'], &resolve),
        Err("can't find missing".to_owned())
    );
    assert_eq!(
        resolve_queue_target_arguments("new-session", strings(&["-t", "x"]), &['t'], &resolve),
        Ok(strings(&["-t", "x"]))
    );
}
