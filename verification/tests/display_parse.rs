use rmux_server::config_parse::{parse_i64_value, CommandError, ParseError};
use rmux_server::display_parse::{
    display_all_formats_template, parse_capture_pane_tokens, parse_display_message_tokens,
    DisplayMessageText,
};

fn words(items: &[&str]) -> Vec<String> {
    items.iter().map(|s| s.to_string()).collect()
}

/// A target check that refuses words starting with `!`.
fn target_ok(t: &String) -> Result<(), String> {
    if t.starts_with('!') {
        Err(format!("can't find {t}"))
    } else {
        Ok(())
    }
}

/// The refusal of the command line's own rules (not of a target).
fn command_error(e: ParseError<String>) -> CommandError {
    match e {
        ParseError::Command(c) => c,
        ParseError::Target(t) => panic!("unexpected target refusal {t}"),
    }
}

#[test]
fn display_all_template_lists_each_variable_on_its_own_line() {
    let template = display_all_formats_template();
    let lines: Vec<&str> = template.lines().collect();
    assert_eq!(lines.first(), Some(&"active_window_index=#{active_window_index}"));
    assert!(lines.contains(&"session_last_attached=#{?session_last_attached,#{session_last_attached},0}"));
    assert!(lines.contains(&"mouse_utf8_flag=#{mouse_utf8_flag}"));
    assert!(!template.ends_with('\n'));
    for line in &lines {
        let (name, rest) = line.split_once('=').expect("each line names a variable");
        if name != "session_last_attached" {
            assert_eq!(rest, format!("#{{{name}}}"));
        }
    }
}

#[test]
fn i64_values_parse_like_str_parse() {
    assert_eq!(parse_i64_value("-10"), Some(-10));
    assert_eq!(parse_i64_value("+7"), Some(7));
    assert_eq!(parse_i64_value("0"), Some(0));
    assert_eq!(parse_i64_value("9223372036854775807"), Some(i64::MAX));
    assert_eq!(parse_i64_value("-9223372036854775808"), Some(i64::MIN));
    assert_eq!(parse_i64_value("9223372036854775808"), None);
    assert_eq!(parse_i64_value("-9223372036854775809"), None);
    assert_eq!(parse_i64_value("-"), None);
    assert_eq!(parse_i64_value("+-1"), None);
    assert_eq!(parse_i64_value(""), None);
    assert_eq!(parse_i64_value("1x"), None);
}

#[test]
fn capture_pane_reads_bounds_and_switches() {
    let t = parse_capture_pane_tokens(&words(&["-p", "-J", "-t", "a:0.0", "-S", "-", "-E", "-20"]), &target_ok)
        .expect("parses");
    assert_eq!(t.target, "a:0.0");
    assert!(t.switches.print && t.switches.join_wrapped && !t.switches.quiet);
    assert!(t.start_is_absolute && !t.end_is_absolute);
    assert_eq!(t.start, None);
    assert_eq!(t.end, Some(-20));

    let t = parse_capture_pane_tokens(&words(&["-t", "p", "-S", "5", "-b", "buf", "-q", "-e"]), &target_ok)
        .expect("parses");
    assert_eq!(t.start, Some(5));
    assert_eq!(t.buffer_name, Some("buf".to_string()));
    assert!(t.switches.quiet && t.switches.escape_ansi);
}

#[test]
fn capture_pane_refusals() {
    let err = |items: &[&str]| parse_capture_pane_tokens(&words(items), &target_ok).err().map(command_error).expect("refused");
    assert_eq!(err(&["-p"]), CommandError::MissingArgument { what: "-t target".to_string() });
    assert_eq!(err(&["-S"]), CommandError::MissingArgument { what: "-S value".to_string() });
    assert_eq!(
        err(&["-t", "p", "-E", "top"]),
        CommandError::InvalidNumber {
            command: "capture-pane".to_string(),
            flag: "-E".to_string(),
            value: "top".to_string(),
        }
    );
    assert_eq!(
        err(&["-Z"]),
        CommandError::UnsupportedFlag { command: "capture-pane".to_string(), flag: "-Z".to_string() }
    );
    assert_eq!(
        err(&["x"]),
        CommandError::UnexpectedArgument {
            command: "capture-pane".to_string(),
            argument: "x".to_string(),
        }
    );
}

#[test]
fn display_message_words_and_formats() {
    let t = parse_display_message_tokens(&words(&["-p", "hello", "world"]), &target_ok).expect("parses");
    assert!(t.print);
    match t.message {
        DisplayMessageText::Words(w) => assert_eq!(w, words(&["hello", "world"])),
        _ => panic!("expected words"),
    }

    let t = parse_display_message_tokens(&words(&["-t", "a", "-F", "#{pane_id}"]), &target_ok).expect("parses");
    assert_eq!(t.target, Some("a".to_string()));
    assert!(!t.print);
    match t.message {
        DisplayMessageText::Format(f) => assert_eq!(f, "#{pane_id}"),
        _ => panic!("expected a format"),
    }

    let t = parse_display_message_tokens(&words(&["-a"]), &target_ok).expect("parses");
    assert!(t.print);
    match t.message {
        DisplayMessageText::Format(f) => assert_eq!(f, display_all_formats_template()),
        _ => panic!("expected the full list"),
    }

    let t = parse_display_message_tokens(&words(&[]), &target_ok).expect("parses");
    assert!(matches!(t.message, DisplayMessageText::Default));
}

#[test]
fn display_message_refuses_words_after_a_format() {
    let unexpected = |arg: &str| CommandError::UnexpectedArgument {
        command: "display-message".to_string(),
        argument: arg.to_string(),
    };
    assert_eq!(
        parse_display_message_tokens(&words(&["-F", "x", "y"]), &target_ok).err().map(command_error),
        Some(unexpected("y"))
    );
    assert_eq!(parse_display_message_tokens(&words(&["-a", "z"]), &target_ok).err().map(command_error), Some(unexpected("z")));
    assert_eq!(
        parse_display_message_tokens(&words(&["-F"]), &target_ok).err().map(command_error),
        Some(CommandError::MissingArgument { what: "-F format".to_string() })
    );
}

#[test]
fn display_targets_are_checked_where_they_are_given() {
    assert_eq!(
        parse_capture_pane_tokens(&words(&["-t", "!gone", "-Z"]), &target_ok).err(),
        Some(ParseError::Target("can't find !gone".to_string()))
    );
    assert_eq!(
        parse_display_message_tokens(&words(&["-t", "!gone", "-F"]), &target_ok).err(),
        Some(ParseError::Target("can't find !gone".to_string()))
    );
}
