use rmux_server::config_parse::{CommandError, ParseError};
use rmux_server::config_parse::parse_u64_value;
use rmux_server::layout_parse::{
    parse_display_panes_tokens, parse_resize_pane_delta, parse_resize_pane_tokens,
    parse_select_layout_tokens, ResizePaneAdjustment, SelectLayoutKind,
};

fn words(items: &[&str]) -> Vec<String> {
    items.iter().map(|s| s.to_string()).collect()
}

/// A pane-target check that refuses words starting with `!`.
fn pane_ok(t: &String) -> Result<(), String> {
    if t.starts_with('!') {
        Err(format!("can't find pane: {t}"))
    } else {
        Ok(())
    }
}

fn command_error(e: ParseError<String>) -> CommandError {
    match e {
        ParseError::Command(c) => c,
        ParseError::Target(t) => panic!("unexpected target refusal {t}"),
    }
}

fn adjustment_of(items: &[&str]) -> ResizePaneAdjustment {
    parse_resize_pane_tokens(&words(items), &pane_ok).expect("resize-pane parses").adjustment
}

fn error_of(items: &[&str]) -> CommandError {
    match parse_resize_pane_tokens(&words(items), &pane_ok) {
        Ok(_) => panic!("resize-pane should be refused: {items:?}"),
        Err(ParseError::Command(e)) => e,
        Err(ParseError::Target(t)) => panic!("unexpected target refusal {t}"),
    }
}

fn one_adjustment() -> CommandError {
    CommandError::Refused("resize-pane accepts only one adjustment flag".to_string())
}

#[test]
fn resize_pane_delta_defaults_to_one_before_a_flag() {
    let args = words(&["-U", "-t", "alpha"]);
    assert_eq!(parse_resize_pane_delta(&args, 1, 'U'), Ok((1, 1)));
    let args = words(&["-U"]);
    assert_eq!(parse_resize_pane_delta(&args, 1, 'U'), Ok((1, 1)));
}

#[test]
fn resize_pane_delta_reads_a_count() {
    let args = words(&["-D", "5"]);
    assert_eq!(parse_resize_pane_delta(&args, 1, 'D'), Ok((5, 2)));
    let args = words(&["-R", "+7"]);
    assert_eq!(parse_resize_pane_delta(&args, 1, 'R'), Ok((7, 2)));
}

#[test]
fn resize_pane_delta_reads_a_lone_dash_as_a_count() {
    let args = words(&["-L", "-"]);
    assert_eq!(
        parse_resize_pane_delta(&args, 1, 'L'),
        Err(CommandError::InvalidNumber {
            command: "resize-pane".to_string(),
            flag: "-L".to_string(),
            value: "-".to_string(),
        })
    );
}

#[test]
fn resize_pane_delta_refuses_out_of_range_counts() {
    let args = words(&["-U", "70000"]);
    assert_eq!(
        parse_resize_pane_delta(&args, 1, 'U'),
        Err(CommandError::InvalidNumber {
            command: "resize-pane".to_string(),
            flag: "-U".to_string(),
            value: "70000".to_string(),
        })
    );
}

#[test]
fn resize_pane_directions_and_zoom() {
    assert_eq!(adjustment_of(&["-Z"]), ResizePaneAdjustment::Zoom);
    assert_eq!(adjustment_of(&["-U"]), ResizePaneAdjustment::Up { cells: 1 });
    assert_eq!(adjustment_of(&["-D", "5"]), ResizePaneAdjustment::Down { cells: 5 });
    assert_eq!(adjustment_of(&["-L", "3"]), ResizePaneAdjustment::Left { cells: 3 });
    assert_eq!(adjustment_of(&["-R", "+4"]), ResizePaneAdjustment::Right { cells: 4 });
    assert_eq!(adjustment_of(&[]), ResizePaneAdjustment::NoOp);
}

#[test]
fn resize_pane_absolute_sizes_combine() {
    assert_eq!(
        adjustment_of(&["-x", "80", "-y", "24"]),
        ResizePaneAdjustment::AbsoluteSize { columns: 80, rows: 24 }
    );
    assert_eq!(adjustment_of(&["-x", "80"]), ResizePaneAdjustment::AbsoluteWidth { columns: 80 });
    assert_eq!(adjustment_of(&["-y", "24"]), ResizePaneAdjustment::AbsoluteHeight { rows: 24 });
    assert_eq!(
        adjustment_of(&["-x", "80", "-x", "90"]),
        ResizePaneAdjustment::AbsoluteWidth { columns: 90 }
    );
}

#[test]
fn resize_pane_keeps_the_raw_target() {
    let tokens = parse_resize_pane_tokens(&words(&["-U", "-t", "alpha:1.2"]), &pane_ok).expect("parses");
    assert_eq!(tokens.target, Some("alpha:1.2".to_string()));
    assert_eq!(tokens.adjustment, ResizePaneAdjustment::Up { cells: 1 });
    let tokens = parse_resize_pane_tokens(&words(&["-Z"]), &pane_ok).expect("parses");
    assert_eq!(tokens.target, None);
}

#[test]
fn resize_pane_refuses_a_second_adjustment() {
    assert_eq!(error_of(&["-Z", "-U"]), one_adjustment());
    assert_eq!(error_of(&["-x", "3", "-U"]), one_adjustment());
    assert_eq!(error_of(&["-U", "-x", "3"]), one_adjustment());
    assert_eq!(error_of(&["-y", "3", "-Z"]), one_adjustment());
}

#[test]
fn resize_pane_refuses_missing_and_bad_values() {
    assert_eq!(
        error_of(&["-x"]),
        CommandError::MissingArgument { what: "-x value".to_string() }
    );
    assert_eq!(
        error_of(&["-y", "tall"]),
        CommandError::InvalidNumber {
            command: "resize-pane".to_string(),
            flag: "-y".to_string(),
            value: "tall".to_string(),
        }
    );
    assert_eq!(
        error_of(&["-t"]),
        CommandError::MissingArgument { what: "-t target".to_string() }
    );
}

#[test]
fn resize_pane_refuses_extra_arguments() {
    assert_eq!(
        error_of(&["-U", "2", "extra"]),
        CommandError::UnexpectedArgument {
            command: "resize-pane".to_string(),
            argument: "extra".to_string(),
        }
    );
    assert_eq!(
        error_of(&["--", "-U"]),
        CommandError::UnexpectedArgument {
            command: "resize-pane".to_string(),
            argument: "-U".to_string(),
        }
    );
}

#[test]
fn select_layout_tokens() {
    let t = parse_select_layout_tokens(&words(&["-t", "a:1", "even-horizontal"]), &pane_ok).expect("parses");
    assert_eq!(t.target, Some("a:1".to_string()));
    assert_eq!(t.kind, SelectLayoutKind::Named);
    assert_eq!(t.layout, Some("even-horizontal".to_string()));

    let t = parse_select_layout_tokens(&words(&["-E"]), &pane_ok).expect("parses");
    assert_eq!(t.kind, SelectLayoutKind::Spread);
    assert_eq!(t.layout, None);
    let t = parse_select_layout_tokens(&words(&["-o"]), &pane_ok).expect("parses");
    assert_eq!(t.kind, SelectLayoutKind::Old);

    let err = |items: &[&str]| parse_select_layout_tokens(&words(items), &pane_ok).err().map(command_error).expect("refused");
    assert_eq!(
        err(&["-E", "-o"]),
        CommandError::Refused("select-layout accepts only one of -E or -o".to_string())
    );
    assert_eq!(
        err(&["-E", "tiled"]),
        CommandError::UnexpectedArgument {
            command: "select-layout".to_string(),
            argument: "tiled".to_string(),
        }
    );
    assert_eq!(err(&[]), CommandError::MissingArgument { what: "select-layout layout".to_string() });
    assert_eq!(
        err(&["tiled", "extra"]),
        CommandError::UnexpectedArgument {
            command: "select-layout".to_string(),
            argument: "extra".to_string(),
        }
    );
}

#[test]
fn display_panes_tokens() {
    let t = parse_display_panes_tokens(&words(&["-b", "-d", "500", "-t", "alpha", "select-pane", "-t", "%%"]), &pane_ok)
        .expect("parses");
    assert!(t.non_blocking && !t.no_command);
    assert_eq!(t.duration_ms, Some(500));
    assert_eq!(t.target, Some("alpha".to_string()));
    assert_eq!(t.template, Some(words(&["select-pane", "-t", "%%"])));

    let t = parse_display_panes_tokens(&words(&["-N"]), &pane_ok).expect("parses");
    assert!(t.no_command);
    assert_eq!(t.template, None);

    assert_eq!(
        parse_display_panes_tokens(&words(&["-d", "soon"]), &pane_ok).err().map(command_error),
        Some(CommandError::InvalidNumber {
            command: "display-panes".to_string(),
            flag: "-d".to_string(),
            value: "soon".to_string(),
        })
    );
    assert_eq!(
        parse_display_panes_tokens(&words(&["-d"]), &pane_ok).err().map(command_error),
        Some(CommandError::MissingArgument { what: "-d duration".to_string() })
    );
}

#[test]
fn u64_values_parse_like_str_parse() {
    assert_eq!(parse_u64_value("18446744073709551615"), Some(u64::MAX));
    assert_eq!(parse_u64_value("18446744073709551616"), None);
    assert_eq!(parse_u64_value("+3"), Some(3));
    assert_eq!(parse_u64_value("-3"), None);
    assert_eq!(parse_u64_value(""), None);
}

#[test]
fn resize_pane_target_is_checked_before_later_flags() {
    assert_eq!(
        parse_resize_pane_tokens(&words(&["-t", "!gone", "-Z", "-U"]), &pane_ok).err(),
        Some(ParseError::Target("can't find pane: !gone".to_string()))
    );
    assert_eq!(
        parse_resize_pane_tokens(&words(&["-Z", "-U", "-t", "!gone"]), &pane_ok).err(),
        Some(ParseError::Command(one_adjustment()))
    );
}

#[test]
fn layout_targets_are_checked_where_they_are_given() {
    assert_eq!(
        parse_select_layout_tokens(&words(&["-t", "!w", "-E", "-o"]), &pane_ok).err(),
        Some(ParseError::Target("can't find pane: !w".to_string()))
    );
    assert_eq!(
        parse_display_panes_tokens(&words(&["-t", "!s"]), &pane_ok).err(),
        Some(ParseError::Target("can't find pane: !s".to_string()))
    );
}
