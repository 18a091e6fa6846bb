use rmux_server::source_files::{
    default_config_paths, default_tmux_fallback_paths, env_flag_enabled,
    glob_pattern_for_source_path, is_windows_null_config_path, oversized_tmux_compat_config_error,
    path_to_glob_pattern, source_entry_display_path, source_inputs_from_entries,
    source_inputs_without_files, strip_utf8_bom, validate_tmux_compat_contents_len,
    validate_tmux_compat_preopen_metadata, validate_tmux_compat_regular_metadata, ConfigEnv,
    FileFacts, PathStyle, ReadFailure, ReadFailureKind, SourceEntryRead, SourceError,
    SourceReadPolicy, MAX_TMUX_COMPAT_CONFIG_BYTES,
};

fn env(
    home: Option<&str>,
    xdg: Option<&str>,
    userprofile: Option<&str>,
    appdata: Option<&str>,
    config_file: Option<&str>,
    disable: Option<&str>,
) -> ConfigEnv {
    ConfigEnv {
        home: home.map(str::to_owned),
        xdg_config_home: xdg.map(str::to_owned),
        userprofile: userprofile.map(str::to_owned),
        appdata: appdata.map(str::to_owned),
        rmux_config_file: config_file.map(str::to_owned),
        disable_tmux_fallback: disable.map(str::to_owned),
    }
}

#[test]
fn strips_utf8_bom_from_source_text() {
    assert_eq!(
        strip_utf8_bom("\u{feff}set -g status off".to_owned()),
        "set -g status off"
    );
    assert_eq!(
        strip_utf8_bom("set -g status off".to_owned()),
        "set -g status off"
    );
}

#[test]
fn source_file_stdin_strips_utf8_bom() {
    let inputs = source_inputs_without_files(
        "-",
        Some("\u{feff}set -g status off"),
        PathStyle::Unix,
    )
    .expect("stdin needs no file system")
    .expect("stdin source should load");

    assert_eq!(inputs[0].contents, "set -g status off");
}

#[test]
fn windows_relative_source_file_uses_glob_safe_separators() {
    let pattern = glob_pattern_for_source_path(
        "nested\\*.conf",
        Some(r"C:\Users\RMUXUser\rmux"),
        PathStyle::Windows,
    );

    assert_eq!(pattern, "C:/Users/RMUXUser/rmux/nested/*.conf");
}

#[test]
fn windows_absolute_source_file_uses_forward_slashes() {
    let pattern = glob_pattern_for_source_path(
        r"C:\Users\RMUXUser\rmux\config.conf",
        None,
        PathStyle::Windows,
    );

    assert_eq!(pattern, "C:/Users/RMUXUser/rmux/config.conf");
}

#[test]
fn windows_null_device_config_paths_are_ignored() {
    assert!(is_windows_null_config_path("NUL"));
    assert!(is_windows_null_config_path("nul:"));
    assert!(is_windows_null_config_path(r"C:\tmp\NUL"));
    assert!(is_windows_null_config_path(r"C:\tmp\NUL.conf"));
    assert!(is_windows_null_config_path(r"\\.\NUL"));
    assert!(!is_windows_null_config_path(r"C:\tmp\null.conf"));
    assert!(!is_windows_null_config_path(r"C:\tmp\nulled"));
}

#[test]
fn stdin_source_without_client_stdin_is_an_error() {
    let result = source_inputs_without_files("-", None, PathStyle::Unix)
        .expect("stdin needs no file system");
    assert_eq!(
        result.err(),
        Some(SourceError::Server(
            "source-file - requires client stdin".to_owned()
        ))
    );
}

#[test]
fn windows_null_device_source_is_empty_input() {
    let inputs = source_inputs_without_files("NUL", None, PathStyle::Windows)
        .expect("the null device needs no file system")
        .expect("the null device loads");
    assert_eq!(inputs.len(), 1);
    assert_eq!(inputs[0].current_file, "NUL");
    assert_eq!(inputs[0].contents, "");
}

#[test]
fn ordinary_paths_need_the_file_system() {
    assert!(source_inputs_without_files("/etc/rmux.conf", None, PathStyle::Unix).is_none());
    assert!(source_inputs_without_files("NUL", None, PathStyle::Unix).is_none());
}

#[test]
fn unix_default_config_paths_follow_home_and_xdg() {
    let paths = default_config_paths(
        &env(Some("/home/u"), Some("/home/u/.cfg"), None, None, None, None),
        PathStyle::Unix,
    );
    assert_eq!(
        paths,
        vec![
            "/etc/rmux.conf".to_owned(),
            "/home/u/.rmux.conf".to_owned(),
            "/home/u/.cfg/rmux/rmux.conf".to_owned(),
            "/home/u/.config/rmux/rmux.conf".to_owned(),
        ]
    );
}

#[test]
fn unix_default_config_paths_skip_empty_and_duplicate_entries() {
    let paths = default_config_paths(
        &env(Some("/home/u"), Some("/home/u/.config"), None, None, None, None),
        PathStyle::Unix,
    );
    assert_eq!(
        paths,
        vec![
            "/etc/rmux.conf".to_owned(),
            "/home/u/.rmux.conf".to_owned(),
            "/home/u/.config/rmux/rmux.conf".to_owned(),
        ]
    );
    let paths = default_config_paths(&env(Some(""), None, None, None, None, None), PathStyle::Unix);
    assert_eq!(paths, vec!["/etc/rmux.conf".to_owned()]);
}

#[test]
fn unix_tmux_fallback_paths_follow_home_and_xdg() {
    let paths = default_tmux_fallback_paths(
        &env(Some("/home/u"), None, None, None, None, None),
        PathStyle::Unix,
    );
    assert_eq!(
        paths,
        vec![
            "/etc/tmux.conf".to_owned(),
            "/home/u/.tmux.conf".to_owned(),
            "/home/u/.config/tmux/tmux.conf".to_owned(),
        ]
    );
}

#[test]
fn tmux_fallback_can_be_disabled() {
    let on = env(Some("/home/u"), None, None, None, None, Some(" Yes "));
    assert!(default_tmux_fallback_paths(&on, PathStyle::Unix).is_empty());
    let off = env(Some("/home/u"), None, None, None, None, Some("OFF"));
    assert_eq!(default_tmux_fallback_paths(&off, PathStyle::Unix).len(), 3);
}

#[test]
fn env_flags_follow_the_usual_spellings() {
    assert!(!env_flag_enabled(&None));
    assert!(!env_flag_enabled(&Some("   ".to_owned())));
    for value in ["0", "false", "No", " off "] {
        assert!(!env_flag_enabled(&Some(value.to_owned())), "{value}");
    }
    for value in ["1", "true", "yes", "anything"] {
        assert!(env_flag_enabled(&Some(value.to_owned())), "{value}");
    }
}

#[test]
fn windows_default_config_paths_join_with_backslashes() {
    let paths = default_config_paths(
        &env(
            None,
            Some(r"C:\xdg"),
            Some(r"C:\Users\me"),
            Some(r"C:\Users\me\AppData\Roaming"),
            Some(r"D:\rmux.conf"),
            None,
        ),
        PathStyle::Windows,
    );
    assert_eq!(
        paths,
        vec![
            r"C:\xdg\rmux\rmux.conf".to_owned(),
            r"C:\Users\me\.rmux.conf".to_owned(),
            r"C:\Users\me\AppData\Roaming\rmux\rmux.conf".to_owned(),
            r"D:\rmux.conf".to_owned(),
        ]
    );
}

#[test]
fn windows_tmux_fallback_paths_join_with_backslashes() {
    let paths = default_tmux_fallback_paths(
        &env(None, None, Some(r"C:\Users\me"), None, None, None),
        PathStyle::Windows,
    );
    assert_eq!(paths, vec![r"C:\Users\me\.tmux.conf".to_owned()]);
}

#[test]
fn glob_patterns_and_display_paths_follow_platform_separators() {
    assert_eq!(path_to_glob_pattern(r"a\b/c", PathStyle::Windows), "a/b/c");
    assert_eq!(path_to_glob_pattern(r"a\b/c", PathStyle::Unix), r"a\b/c");
    assert_eq!(source_entry_display_path("a/b/c", PathStyle::Windows), r"a\b\c");
    assert_eq!(source_entry_display_path("a/b/c", PathStyle::Unix), "a/b/c");
}

#[test]
fn relative_source_paths_escape_the_working_directory() {
    assert_eq!(
        glob_pattern_for_source_path("*.conf", Some("/tmp/[x]?"), PathStyle::Unix),
        "/tmp/[[]x[]][?]/*.conf"
    );
    assert_eq!(
        glob_pattern_for_source_path("/etc/*.conf", Some("/tmp"), PathStyle::Unix),
        "/etc/*.conf"
    );
    assert_eq!(
        glob_pattern_for_source_path("a.conf", None, PathStyle::Unix),
        "a.conf"
    );
}

#[test]
fn tmux_compat_metadata_checks() {
    let regular = FileFacts { is_symlink: false, is_file: true, len: 10 };
    assert!(validate_tmux_compat_regular_metadata(&regular).is_ok());
    assert!(validate_tmux_compat_preopen_metadata(&regular).is_ok());

    let big = FileFacts { is_symlink: false, is_file: true, len: MAX_TMUX_COMPAT_CONFIG_BYTES + 1 };
    let error = validate_tmux_compat_regular_metadata(&big).unwrap_err();
    assert_eq!(error.kind, ReadFailureKind::InvalidData);
    assert_eq!(error.message, "tmux fallback config exceeds 1 MiB");

    let at_limit = FileFacts { is_symlink: false, is_file: true, len: MAX_TMUX_COMPAT_CONFIG_BYTES };
    assert!(validate_tmux_compat_regular_metadata(&at_limit).is_ok());

    let fifo = FileFacts { is_symlink: false, is_file: false, len: 0 };
    let error = validate_tmux_compat_regular_metadata(&fifo).unwrap_err();
    assert_eq!(error.kind, ReadFailureKind::InvalidInput);
    assert_eq!(error.message, "tmux fallback config is not a regular file");

    let link = FileFacts { is_symlink: true, is_file: false, len: 0 };
    let error = validate_tmux_compat_preopen_metadata(&link).unwrap_err();
    assert_eq!(error.kind, ReadFailureKind::InvalidInput);
    assert!(validate_tmux_compat_regular_metadata(&FileFacts { is_symlink: true, ..regular }).is_ok());
}

#[test]
fn tmux_compat_contents_over_the_limit_are_refused() {
    assert!(validate_tmux_compat_contents_len(MAX_TMUX_COMPAT_CONFIG_BYTES).is_ok());
    let error = validate_tmux_compat_contents_len(MAX_TMUX_COMPAT_CONFIG_BYTES + 1).unwrap_err();
    assert_eq!(error.kind, ReadFailureKind::InvalidData);
    assert_eq!(MAX_TMUX_COMPAT_CONFIG_BYTES, 1024 * 1024);
    assert_eq!(oversized_tmux_compat_config_error().message, "tmux fallback config exceeds 1 MiB");
}

fn read_ok(path: &str, text: &str) -> SourceEntryRead {
    SourceEntryRead { path: path.to_owned(), contents: Ok(text.to_owned()) }
}

fn read_err(path: &str, kind: ReadFailureKind, message: &str) -> SourceEntryRead {
    SourceEntryRead {
        path: path.to_owned(),
        contents: Err(ReadFailure { kind, message: message.to_owned() }),
    }
}

#[test]
fn source_entries_become_inputs_without_bom() {
    let inputs = source_inputs_from_entries(
        "/tmp/*.conf",
        false,
        SourceReadPolicy::Strict,
        PathStyle::Unix,
        vec![read_ok("/tmp/a.conf", "\u{feff}set -g status off"), read_ok("/tmp/b.conf", "x")],
    )
    .expect("both files load");
    assert_eq!(inputs.len(), 2);
    assert_eq!(inputs[0].current_file, "/tmp/a.conf");
    assert_eq!(inputs[0].contents, "set -g status off");
    assert_eq!(inputs[1].current_file, "/tmp/b.conf");
}

#[test]
fn missing_source_file_is_a_message_unless_quiet() {
    let error = source_inputs_from_entries(
        "/nope.conf",
        false,
        SourceReadPolicy::Strict,
        PathStyle::Unix,
        Vec::new(),
    )
    .unwrap_err();
    assert_eq!(
        error,
        SourceError::Message("/nope.conf: No such file or directory".to_owned())
    );
    let inputs = source_inputs_from_entries(
        "/nope.conf",
        true,
        SourceReadPolicy::Strict,
        PathStyle::Unix,
        Vec::new(),
    )
    .unwrap();
    assert!(inputs.is_empty());
}

#[test]
fn unreadable_source_file_fails_strictly_and_is_skipped_best_effort() {
    let entries = || {
        vec![
            read_err("C:/cfg/a.conf", ReadFailureKind::Other, "permission denied"),
            read_ok("C:/cfg/b.conf", "set -g status on"),
        ]
    };
    let error = source_inputs_from_entries(
        "C:/cfg/*.conf",
        false,
        SourceReadPolicy::Strict,
        PathStyle::Windows,
        entries(),
    )
    .unwrap_err();
    assert_eq!(
        error,
        SourceError::Server(r"C:\cfg\a.conf: permission denied".to_owned())
    );
    let inputs = source_inputs_from_entries(
        "C:/cfg/*.conf",
        false,
        SourceReadPolicy::BestEffort,
        PathStyle::Windows,
        entries(),
    )
    .unwrap();
    assert_eq!(inputs.len(), 1);
    assert_eq!(inputs[0].current_file, r"C:\cfg\b.conf");
}

#[test]
fn vanished_source_file_is_skipped_when_quiet() {
    let entries = vec![read_err("/tmp/gone.conf", ReadFailureKind::NotFound, "not found")];
    let inputs = source_inputs_from_entries(
        "/tmp/*.conf",
        true,
        SourceReadPolicy::Strict,
        PathStyle::Unix,
        entries,
    )
    .unwrap();
    assert!(inputs.is_empty());
}
