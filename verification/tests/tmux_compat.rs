use rmux_server::config_parse::parse_set_option_tokens;
use rmux_server::source_files::SourceInput;
use rmux_server::tmux_compat::{
    apply_brace_depth, compatible_command, conditional_directive, contains_format_job,
    escape_argument, expand_leading_compact_flags, filter_tmux_compat_input,
    has_line_continuation, net_brace_depth, tmux_logical_lines, update_command_block_depth,
    update_conditional_depth, validate_set_option, validate_unbind_key, CommandCheck,
    ConditionalDirective, ParsedCommand, ParsedLine,
};

// What the command parser and the option and key tables report of each
// logical line is written out by hand below, as they report it for tmux's own
// spelling of each line.

fn strings(args: &[&str]) -> Vec<String> {
    args.iter().map(|a| (*a).to_owned()).collect()
}

fn option_command(
    name: &str,
    args: &[&str],
    option: &str,
    value: Option<&str>,
    allowlisted: bool,
    store_accepts: bool,
) -> ParsedCommand {
    // The option and value written out here are those the library reads from
    // the arguments themselves.
    let expanded = expand_leading_compact_flags(strings(args), "gswpaouU");
    let any = |_: &String| Ok::<(), ()>(());
    let request = parse_set_option_tokens(&expanded, name == "set-window-option", &any)
        .expect("set-option arguments parse");
    assert_eq!(request.option, option);
    assert_eq!(request.value.as_deref(), value);
    ParsedCommand {
        name: name.to_owned(),
        arguments: Some(strings(args)),
        check: CommandCheck::SetOption { request_accepted: true, allowlisted, store_accepts },
    }
}

/// A `set-option` of an allow-listed option that the store takes.
fn set(args: &[&str], option: &str, value: &str) -> ParsedCommand {
    option_command("set-option", args, option, Some(value), true, true)
}

/// A `set-option` of an option that is not on the tmux allow-list.
fn set_unlisted(args: &[&str], option: &str, value: &str) -> ParsedCommand {
    option_command("set-option", args, option, Some(value), false, true)
}

fn setw(args: &[&str], option: &str, value: &str) -> ParsedCommand {
    option_command("set-window-option", args, option, Some(value), true, true)
}

fn unbind(args: &[&str], all: bool, has_key: bool, quiet: bool) -> ParsedCommand {
    ParsedCommand {
        name: "unbind-key".to_owned(),
        arguments: Some(strings(args)),
        check: CommandCheck::UnbindKey {
            all,
            has_key,
            key_known: true,
            quiet,
            table_exists: true,
        },
    }
}

/// Any other command: it never parses as an option or unbinding request.
fn other(name: &str, args: &[&str]) -> ParsedCommand {
    ParsedCommand { name: name.to_owned(), arguments: Some(strings(args)), check: CommandCheck::Unparsed }
}

fn line(commands: Vec<ParsedCommand>) -> Option<ParsedLine> {
    Some(ParsedLine { has_assignments: false, commands })
}

fn filter(contents: &str, parsed: Vec<Option<ParsedLine>>) -> String {
    filter_tmux_compat_input(
        &SourceInput {
            current_file: "~/.tmux.conf".to_owned(),
            contents: contents.to_owned(),
        },
        &parsed,
    )
    .contents
}

#[test]
fn imports_static_options_and_key_unbindings() {
    let filtered = filter(
        "set -g status off\n\
         set -gw mode-style fg=black,bg=cyan\n\
         setw -g pane-border-style fg=colour3\n\
         bind-key -rn v split-window -h\n\
         unbind-key -nq C-b\n",
        vec![
            line(vec![set(&["-g", "status", "off"], "status", "off")]),
            line(vec![set(
                &["-gw", "mode-style", "fg=black,bg=cyan"],
                "mode-style",
                "fg=black,bg=cyan",
            )]),
            line(vec![setw(
                &["-g", "pane-border-style", "fg=colour3"],
                "pane-border-style",
                "fg=colour3",
            )]),
            line(vec![other("bind-key", &["-rn", "v", "split-window", "-h"])]),
            line(vec![unbind(&["-nq", "C-b"], false, true, true)]),
        ],
    );

    assert!(filtered.contains("set-option -g status off"));
    assert!(filtered.contains("set-option -g -w mode-style fg=black,bg=cyan"));
    assert!(filtered.contains("set-window-option -g pane-border-style fg=colour3"));
    assert!(!filtered.lines().any(|line| line.starts_with("bind-key ")));
    assert!(filtered.contains("unbind-key -n -q C-b"));
}

#[test]
fn skips_shell_hooks_conditionals_and_recursive_sources() {
    let filtered = filter(
        "%if #{==:1,1}\n\
         set-hook -g after-new-window 'run-shell echo no'\n\
         run-shell '~/.tmux/plugins/tpm/tpm'\n\
         bind-key R source-file ~/.tmux.conf\n\
         bind-key X run-shell 'touch /tmp/nope'\n\
         set -g @plugin 'tmux-plugins/tpm'\n\
         %endif\n",
        vec![
            None,
            line(vec![other("set-hook", &["-g", "after-new-window", "run-shell echo no"])]),
            line(vec![other("run-shell", &["~/.tmux/plugins/tpm/tpm"])]),
            line(vec![other("bind-key", &["R", "source-file", "~/.tmux.conf"])]),
            line(vec![other("bind-key", &["X", "run-shell", "touch /tmp/nope"])]),
            line(vec![set(&["-g", "@plugin", "tmux-plugins/tpm"], "@plugin", "tmux-plugins/tpm")]),
            None,
        ],
    );

    assert!(!filtered.contains("%if"));
    assert!(!filtered.contains("set-hook"));
    assert!(!filtered.contains("run-shell"));
    assert!(!filtered.contains("source-file"));
    assert!(!filtered.contains("@plugin"));
}

#[test]
fn skips_entire_conditional_blocks_before_importing() {
    let filtered = filter(
        "set -g status on\n\
         %if '0'\n\
         set -g status off\n\
         %else\n\
         set -g mouse on\n\
         %endif\n\
         set -g bell-action any\n",
        vec![
            line(vec![set(&["-g", "status", "on"], "status", "on")]),
            None,
            line(vec![set(&["-g", "status", "off"], "status", "off")]),
            None,
            line(vec![set(&["-g", "mouse", "on"], "mouse", "on")]),
            None,
            line(vec![set(&["-g", "bell-action", "any"], "bell-action", "any")]),
        ],
    );

    assert!(filtered.contains("set-option -g status on"));
    assert!(filtered.contains("set-option -g bell-action any"));
    assert!(!filtered.contains("status off"));
    assert!(!filtered.contains("mouse on"));
}

#[test]
fn skips_nested_conditional_blocks_before_importing() {
    let filtered = filter(
        "%if '1'\n\
         set -g status off\n\
         %if '1'\n\
         set -g mouse on\n\
         %endif\n\
         %endif\n\
         set -g bell-action any\n",
        vec![
            None,
            line(vec![set(&["-g", "status", "off"], "status", "off")]),
            None,
            line(vec![set(&["-g", "mouse", "on"], "mouse", "on")]),
            None,
            None,
            line(vec![set(&["-g", "bell-action", "any"], "bell-action", "any")]),
        ],
    );

    assert_eq!(filtered, "set-option -g bell-action any\n");
}

#[test]
fn skips_tmux_command_blocks_before_importing_inner_lines() {
    let filtered = filter(
        "if-shell 'test -f ~/.enable-rmux' {\n\
         set -g status off\n\
         set -g mouse on\n\
         }\n\
         set -g bell-action any\n",
        vec![
            None,
            line(vec![set(&["-g", "status", "off"], "status", "off")]),
            line(vec![set(&["-g", "mouse", "on"], "mouse", "on")]),
            None,
            line(vec![set(&["-g", "bell-action", "any"], "bell-action", "any")]),
        ],
    );

    assert_eq!(filtered, "set-option -g bell-action any\n");
}

#[test]
fn skips_nested_tmux_command_blocks_before_importing_inner_lines() {
    let filtered = filter(
        "if -F '#{==:1,1}' {\n\
         if-shell 'true' {\n\
         set -g status off\n\
         }\n\
         set -g mouse on\n\
         }\n\
         set -g bell-action any\n",
        vec![
            None,
            None,
            line(vec![set(&["-g", "status", "off"], "status", "off")]),
            None,
            line(vec![set(&["-g", "mouse", "on"], "mouse", "on")]),
            None,
            line(vec![set(&["-g", "bell-action", "any"], "bell-action", "any")]),
        ],
    );

    assert_eq!(filtered, "set-option -g bell-action any\n");
}

#[test]
fn braces_inside_quotes_do_not_start_tmux_command_blocks() {
    let filtered = filter(
        "run-shell 'echo {'\n\
         set -g status-left '{prefix}'\n\
         set -g status off\n",
        vec![
            line(vec![other("run-shell", &["echo {"])]),
            line(vec![set(&["-g", "status-left", "{prefix}"], "status-left", "{prefix}")]),
            line(vec![set(&["-g", "status", "off"], "status", "off")]),
        ],
    );

    assert_eq!(
        filtered,
        "set-option -g status-left '{prefix}'\nset-option -g status off\n"
    );
}

#[test]
fn braces_inside_skipped_blocks_do_not_change_block_depth() {
    let filtered = filter(
        "if-shell 'true' {\n\
         display-message 'literal }'\n\
         set -g status off\n\
         }\n\
         set -g bell-action any\n",
        vec![
            None,
            line(vec![other("display-message", &["literal }"])]),
            line(vec![set(&["-g", "status", "off"], "status", "off")]),
            None,
            line(vec![set(&["-g", "bell-action", "any"], "bell-action", "any")]),
        ],
    );

    assert_eq!(filtered, "set-option -g bell-action any\n");
}

#[test]
fn skips_unknown_options_and_keeps_later_supported_options() {
    let filtered = filter(
        "set -g definitely-not-rmux yes\n\
         set -g status maybe-invalid-bool\n\
         set -g status on\n",
        vec![
            line(vec![ParsedCommand {
                name: "set-option".to_owned(),
                arguments: Some(strings(&["-g", "definitely-not-rmux", "yes"])),
                check: CommandCheck::Unparsed,
            }]),
            line(vec![option_command(
                "set-option",
                &["-g", "status", "maybe-invalid-bool"],
                "status",
                Some("maybe-invalid-bool"),
                true,
                false,
            )]),
            line(vec![set(&["-g", "status", "on"], "status", "on")]),
        ],
    );

    assert!(!filtered.contains("definitely-not-rmux"));
    assert!(!filtered.contains("maybe-invalid-bool"));
    assert!(filtered.contains("set-option -g status on"));
}

#[test]
fn skips_shell_capable_options_from_tmux_conf() {
    let filtered = filter(
        "set -g default-shell /tmp/evil-shell\n\
         set -g default-command 'touch /tmp/nope; exec sh'\n\
         set -s default-client-command 'run-shell true'\n\
         set -s copy-command 'cat >/tmp/copy'\n\
         set -g lock-command 'touch /tmp/lock'\n\
         set -s command-alias[0] 'oops=run-shell true'\n\
         set -g editor 'sh -c evil'\n\
         set -g status on\n",
        vec![
            line(vec![set_unlisted(&["-g", "default-shell", "/tmp/evil-shell"], "default-shell", "/tmp/evil-shell")]),
            line(vec![set_unlisted(
                &["-g", "default-command", "touch /tmp/nope; exec sh"],
                "default-command",
                "touch /tmp/nope; exec sh",
            )]),
            line(vec![set_unlisted(
                &["-s", "default-client-command", "run-shell true"],
                "default-client-command",
                "run-shell true",
            )]),
            line(vec![set_unlisted(&["-s", "copy-command", "cat >/tmp/copy"], "copy-command", "cat >/tmp/copy")]),
            line(vec![set_unlisted(&["-g", "lock-command", "touch /tmp/lock"], "lock-command", "touch /tmp/lock")]),
            line(vec![set_unlisted(
                &["-s", "command-alias[0]", "oops=run-shell true"],
                "command-alias[0]",
                "oops=run-shell true",
            )]),
            line(vec![set_unlisted(&["-g", "editor", "sh -c evil"], "editor", "sh -c evil")]),
            line(vec![set(&["-g", "status", "on"], "status", "on")]),
        ],
    );

    assert!(!filtered.contains("default-shell"));
    assert!(!filtered.contains("default-command"));
    assert!(!filtered.contains("default-client-command"));
    assert!(!filtered.contains("copy-command"));
    assert!(!filtered.contains("lock-command"));
    assert!(!filtered.contains("command-alias"));
    assert!(!filtered.contains("editor"));
    assert!(filtered.contains("set-option -g status on"));
}

#[test]
fn skips_capability_clipboard_and_environment_options_from_tmux_conf() {
    let filtered = filter(
        "set -g allow-passthrough on\n\
         set -g get-clipboard on\n\
         set -g set-clipboard on\n\
         set -s terminal-features 'xterm*:clipboard:RGB'\n\
         set -s terminal-overrides 'xterm*:Ms=evil'\n\
         set -g update-environment 'SSH_AUTH_SOCK SECRET_TOKEN'\n\
         set -g status on\n",
        vec![
            line(vec![set_unlisted(&["-g", "allow-passthrough", "on"], "allow-passthrough", "on")]),
            line(vec![set_unlisted(&["-g", "get-clipboard", "on"], "get-clipboard", "on")]),
            line(vec![set_unlisted(&["-g", "set-clipboard", "on"], "set-clipboard", "on")]),
            line(vec![set_unlisted(
                &["-s", "terminal-features", "xterm*:clipboard:RGB"],
                "terminal-features",
                "xterm*:clipboard:RGB",
            )]),
            line(vec![set_unlisted(
                &["-s", "terminal-overrides", "xterm*:Ms=evil"],
                "terminal-overrides",
                "xterm*:Ms=evil",
            )]),
            line(vec![set_unlisted(
                &["-g", "update-environment", "SSH_AUTH_SOCK SECRET_TOKEN"],
                "update-environment",
                "SSH_AUTH_SOCK SECRET_TOKEN",
            )]),
            line(vec![set(&["-g", "status", "on"], "status", "on")]),
        ],
    );

    assert!(!filtered.contains("allow-passthrough"));
    assert!(!filtered.contains("get-clipboard"));
    assert!(!filtered.contains("set-clipboard"));
    assert!(!filtered.contains("terminal-features"));
    assert!(!filtered.contains("terminal-overrides"));
    assert!(!filtered.contains("update-environment"));
    assert!(filtered.contains("set-option -g status on"));
}

#[test]
fn skips_supported_options_that_are_not_tmux_fallback_allowlisted() {
    let filtered = filter(
        "set -g default-terminal tmux-256color\n\
         set -g history-file /tmp/rmux-history\n\
         set -s codepoint-widths U+1F9E0=2\n\
         set -s user-keys[0] '\\e[999~'\n\
         set -g status on\n",
        vec![
            line(vec![set_unlisted(&["-g", "default-terminal", "tmux-256color"], "default-terminal", "tmux-256color")]),
            line(vec![set_unlisted(&["-g", "history-file", "/tmp/rmux-history"], "history-file", "/tmp/rmux-history")]),
            line(vec![set_unlisted(&["-s", "codepoint-widths", "U+1F9E0=2"], "codepoint-widths", "U+1F9E0=2")]),
            line(vec![set_unlisted(&["-s", "user-keys[0]", "\\e[999~"], "user-keys[0]", "\\e[999~")]),
            line(vec![set(&["-g", "status", "on"], "status", "on")]),
        ],
    );

    assert!(!filtered.contains("default-terminal"));
    assert!(!filtered.contains("history-file"));
    assert!(!filtered.contains("codepoint-widths"));
    assert!(!filtered.contains("user-keys"));
    assert!(filtered.contains("set-option -g status on"));
}

#[test]
fn skips_format_jobs_from_tmux_conf_values() {
    let filtered = filter(
        "set -g status-right '#(touch /tmp/nope)'\n\
         set -g status-left '#{session_name}'\n",
        vec![
            line(vec![set(&["-g", "status-right", "#(touch /tmp/nope)"], "status-right", "#(touch /tmp/nope)")]),
            line(vec![set(&["-g", "status-left", "#{session_name}"], "status-left", "#{session_name}")]),
        ],
    );

    assert!(!filtered.contains("status-right"));
    assert!(filtered.contains("set-option -g status-left '#{session_name}'"));
}

#[test]
fn skips_environment_mutations_from_tmux_conf() {
    let filtered = filter(
        "set-environment -g FOO bar\n\
         setenv -g SHELL /tmp/evil-shell\n\
         set-environment -g PATH /tmp/bin\n\
         set -g status on\n",
        vec![
            line(vec![other("set-environment", &["-g", "FOO", "bar"])]),
            line(vec![other("set-environment", &["-g", "SHELL", "/tmp/evil-shell"])]),
            line(vec![other("set-environment", &["-g", "PATH", "/tmp/bin"])]),
            line(vec![set(&["-g", "status", "on"], "status", "on")]),
        ],
    );

    assert!(!filtered.contains("set-environment"));
    assert!(!filtered.contains("SHELL"));
    assert!(!filtered.contains("PATH"));
    assert!(filtered.contains("set-option -g status on"));
}

#[test]
fn quotes_backslashes_when_reemitting_filtered_commands() {
    let filtered = filter(
        "set -g status-left \"C:\\\\Users\\\\name\"\n",
        vec![line(vec![set(
            &["-g", "status-left", "C:\\Users\\name"],
            "status-left",
            "C:\\Users\\name",
        )])],
    );

    assert_eq!(filtered, "set-option -g status-left 'C:\\Users\\name'\n");
}

#[test]
fn joins_simple_tmux_continuations_before_filtering() {
    let contents = "set -g status-left hello\\\n-world\n";
    assert_eq!(tmux_logical_lines(contents), vec!["set -g status-left hello-world".to_owned()]);
    let filtered = filter(
        contents,
        vec![line(vec![set(&["-g", "status-left", "hello-world"], "status-left", "hello-world")])],
    );

    assert!(filtered.contains("set-option -g status-left hello-world"));
}

#[test]
fn rejects_parse_time_assignments_and_unknown_commands() {
    assert!(filter(
        "FOO=bar set -g status off\n",
        vec![Some(ParsedLine {
            has_assignments: true,
            commands: vec![set(&["-g", "status", "off"], "status", "off")],
        })],
    )
    .is_empty());
    assert!(filter("this-is-not-a-command\n", vec![None]).is_empty());
}

#[test]
fn key_bindings_are_not_imported_from_tmux_conf() {
    let one = |text: &str, args: &[&str]| filter(text, vec![line(vec![other("bind-key", args)])]);
    assert!(one("bind-key v splitw -h\n", &["v", "splitw", "-h"]).is_empty());
    assert!(one("bind-key n next-window\n", &["n", "next-window"]).is_empty());
    assert!(one(
        "bind-key -T copy-mode-vi v send-keys -X begin-selection\n",
        &["-T", "copy-mode-vi", "v", "send-keys", "-X", "begin-selection"]
    )
    .is_empty());
    assert!(one("bind-key e send-keys 'curl bad | sh' Enter\n", &["e", "send-keys", "curl bad | sh", "Enter"]).is_empty());
    assert!(one("bind-key c new-window 'touch /tmp/nope'\n", &["c", "new-window", "touch /tmp/nope"]).is_empty());
    assert!(one("bind-key % split-window 'touch /tmp/nope'\n", &["%", "split-window", "touch /tmp/nope"]).is_empty());
    assert!(one("bind-key r run 'touch /tmp/nope'\n", &["r", "run", "touch /tmp/nope"]).is_empty());
    assert!(one("bind-key -Z v split-window -h\n", &["-Z", "v", "split-window", "-h"]).is_empty());
    assert!(one("bind-key\n", &[]).is_empty());
    assert!(one(
        "bind-key definitely-not-a-key split-window -h\n",
        &["definitely-not-a-key", "split-window", "-h"]
    )
    .is_empty());
    assert!(one("bind-key x { split-window -h }\n", &["x"]).is_empty());
}

#[test]
fn global_key_unbinds_are_not_imported_from_tmux_conf() {
    assert!(filter("unbind-key -a\n", vec![line(vec![unbind(&["-a"], true, false, false)])]).is_empty());
    assert!(filter("unbind -a\n", vec![line(vec![unbind(&["-a"], true, false, false)])]).is_empty());
    assert!(filter("unbind-key -aq\n", vec![line(vec![unbind(&["-aq"], true, false, true)])]).is_empty());
    assert!(filter(
        "unbind-key -T copy-mode-vi -a\n",
        vec![line(vec![unbind(&["-T", "copy-mode-vi", "-a"], true, false, false)])]
    )
    .is_empty());

    let filtered = filter(
        "unbind-key -a\nset -g status on\n",
        vec![
            line(vec![unbind(&["-a"], true, false, false)]),
            line(vec![set(&["-g", "status", "on"], "status", "on")]),
        ],
    );
    assert_eq!(filtered, "set-option -g status on\n");
}

#[test]
fn direct_runtime_commands_are_not_imported_from_tmux_conf() {
    assert!(filter(
        "new-session -d -s surprise\n",
        vec![line(vec![other("new-session", &["-d", "-s", "surprise"])])]
    )
    .is_empty());
    assert!(filter(
        "source-file ~/.tmux/plugins/tpm/tpm\n",
        vec![line(vec![other("source-file", &["~/.tmux/plugins/tpm/tpm"])])]
    )
    .is_empty());
    assert!(filter(
        "if-shell 'test -f ~/.foo' 'set -g status off'\n",
        vec![line(vec![other("if-shell", &["test -f ~/.foo", "set -g status off"])])]
    )
    .is_empty());
    assert!(filter(
        "run-shell 'touch /tmp/nope'\n",
        vec![line(vec![other("run-shell", &["touch /tmp/nope"])])]
    )
    .is_empty());
    assert!(filter("kill-server\n", vec![line(vec![other("kill-server", &[])])]).is_empty());
}

#[test]
fn shell_capable_binding_commands_are_rejected() {
    let one = |text: &str, args: &[&str]| filter(text, vec![line(vec![other("bind-key", args)])]);
    assert!(one("bind-key : command-prompt\n", &[":", "command-prompt"]).is_empty());
    assert!(one("bind-key x confirm-before kill-pane\n", &["x", "confirm-before", "kill-pane"]).is_empty());
    assert!(one("bind-key p display-popup -E htop\n", &["p", "display-popup", "-E", "htop"]).is_empty());
    assert!(one("bind-key P pipe-pane 'cat >/tmp/log'\n", &["P", "pipe-pane", "cat >/tmp/log"]).is_empty());
}

#[test]
fn command_lists_are_all_or_nothing() {
    let filtered = filter(
        "set -g status off; setw -g pane-border-style fg=colour2\n",
        vec![line(vec![
            set(&["-g", "status", "off"], "status", "off"),
            setw(&["-g", "pane-border-style", "fg=colour2"], "pane-border-style", "fg=colour2"),
        ])],
    );

    assert!(filtered.contains(
        "set-option -g status off ; set-window-option -g pane-border-style fg=colour2"
    ));
    assert!(filter(
        "set -g status off; run-shell true\n",
        vec![line(vec![
            set(&["-g", "status", "off"], "status", "off"),
            other("run-shell", &["true"]),
        ])]
    )
    .is_empty());
    assert!(filter(
        "bind-key q split-window -h ; run-shell true\n",
        vec![line(vec![
            other("bind-key", &["q", "split-window", "-h"]),
            other("run-shell", &["true"]),
        ])]
    )
    .is_empty());
}

#[test]
fn validates_option_scope_values_and_array_indexes_before_importing() {
    assert!(filter(
        "set -s mode-style fg=red\n",
        vec![line(vec![option_command(
            "set-option",
            &["-s", "mode-style", "fg=red"],
            "mode-style",
            Some("fg=red"),
            true,
            false,
        )])]
    )
    .is_empty());
    assert!(filter(
        "set -g status-left[abc] value\n",
        vec![line(vec![ParsedCommand {
            name: "set-option".to_owned(),
            arguments: Some(strings(&["-g", "status-left[abc]", "value"])),
            check: CommandCheck::Unparsed,
        }])]
    )
    .is_empty());

    let filtered = filter(
        "set -g status-format[0] '#[bold]#{session_name}'\n",
        vec![line(vec![set(
            &["-g", "status-format[0]", "#[bold]#{session_name}"],
            "status-format[0]",
            "#[bold]#{session_name}",
        )])],
    );
    assert!(filtered.contains("set-option -g status-format[0] '#[bold]#{session_name}'"));
}

#[test]
fn filtered_configuration_roundtrips_to_regular_rmux_commands() {
    let filtered = filter(
        "set -g status off\n\
         set -g mouse on\n\
         setw -g mode-style fg=black,bg=cyan\n",
        vec![
            line(vec![set(&["-g", "status", "off"], "status", "off")]),
            line(vec![set(&["-g", "mouse", "on"], "mouse", "on")]),
            line(vec![setw(&["-g", "mode-style", "fg=black,bg=cyan"], "mode-style", "fg=black,bg=cyan")]),
        ],
    );

    assert_eq!(
        filtered,
        "set-option -g status off\nset-option -g mouse on\nset-window-option -g mode-style fg=black,bg=cyan\n"
    );
    assert_eq!(filtered.lines().count(), 3);
}

#[test]
fn filter_keeps_the_current_file() {
    let out = filter_tmux_compat_input(
        &SourceInput { current_file: "/etc/tmux.conf".to_owned(), contents: String::new() },
        &Vec::new(),
    );
    assert_eq!(out.current_file, "/etc/tmux.conf");
    assert_eq!(out.contents, "");
}

#[test]
fn lines_without_a_parser_report_are_refused() {
    assert_eq!(filter("set -g status on\nset -g mouse on\n", vec![line(vec![set(&["-g", "status", "on"], "status", "on")])]),
        "set-option -g status on\n");
}

#[test]
fn logical_lines_follow_std_line_splitting() {
    assert_eq!(tmux_logical_lines(""), Vec::<String>::new());
    assert_eq!(tmux_logical_lines("a\r\nb\n\nc\r"), vec!["a", "b", "", "c\r"]);
    assert_eq!(tmux_logical_lines("a \\\\\nb\n"), vec!["a \\\\", "b"]);
    assert_eq!(tmux_logical_lines("a\\\\\\ \nb"), vec!["ab"]);
    assert_eq!(tmux_logical_lines("tail\\\n"), vec!["tail"]);
    assert_eq!(tmux_logical_lines("x\\\n\\\ny\n"), vec!["xy"]);
}

#[test]
fn line_continuation_needs_an_odd_backslash_run() {
    assert!(has_line_continuation("a\\"));
    assert!(!has_line_continuation("a\\\\"));
    assert!(has_line_continuation("\\\\\\"));
    assert!(!has_line_continuation(""));
    assert!(!has_line_continuation("a\\ "));
}

#[test]
fn conditional_directives_are_the_first_word() {
    assert_eq!(conditional_directive("  %if '1'"), Some(ConditionalDirective::If));
    assert_eq!(conditional_directive("%elif x"), Some(ConditionalDirective::Elif));
    assert_eq!(conditional_directive("%else"), Some(ConditionalDirective::Else));
    assert_eq!(conditional_directive("\t%endif  "), Some(ConditionalDirective::Endif));
    assert_eq!(conditional_directive("%iff"), None);
    assert_eq!(conditional_directive("set %if"), None);
    assert_eq!(conditional_directive("   "), None);
}

#[test]
fn conditional_depth_saturates_at_both_ends() {
    let mut depth = 0usize;
    assert!(update_conditional_depth("%endif", &mut depth));
    assert_eq!(depth, 0);
    assert!(update_conditional_depth("%if 1", &mut depth));
    assert!(update_conditional_depth("%if 1", &mut depth));
    assert!(update_conditional_depth("%else", &mut depth));
    assert_eq!(depth, 2);
    assert!(update_conditional_depth("%endif", &mut depth));
    assert_eq!(depth, 1);
    assert!(!update_conditional_depth("set -g status on", &mut depth));
    assert_eq!(depth, 1);
    let mut full = usize::MAX;
    assert!(update_conditional_depth("%if", &mut full));
    assert_eq!(full, usize::MAX);
}

#[test]
fn brace_depth_ignores_quotes_escapes_and_comments() {
    assert_eq!(net_brace_depth("if-shell true {"), 1);
    assert_eq!(net_brace_depth("a { b { c } "), 1);
    assert_eq!(net_brace_depth("echo '{' \"{\" \\{"), 0);
    assert_eq!(net_brace_depth("x # {"), 0);
    assert_eq!(net_brace_depth("'it\\'s {' {"), 1);
    assert_eq!(apply_brace_depth("}", 0), 0);
    assert_eq!(apply_brace_depth("} }", 3), 1);
    assert_eq!(apply_brace_depth("{", usize::MAX), usize::MAX);
    let mut depth = 2;
    update_command_block_depth("}", &mut depth);
    assert_eq!(depth, 1);
}

#[test]
fn format_jobs_are_found_anywhere_in_a_value() {
    assert!(contains_format_job("#(date)"));
    assert!(contains_format_job("x #(y)"));
    assert!(!contains_format_job("#{session_name}"));
    assert!(!contains_format_job("#"));
    assert!(!contains_format_job("( #"));
}

#[test]
fn compact_flags_are_expanded_only_before_the_first_operand() {
    let flags = "gswpaouU";
    let expand = |args: &[&str]| expand_leading_compact_flags(strings(args), flags);
    assert_eq!(expand(&["-gw", "mode-style", "-gu"]), vec!["-g", "-w", "mode-style", "-gu"]);
    assert_eq!(expand(&["-g", "--", "-gw"]), vec!["-g", "--", "-gw"]);
    assert_eq!(expand(&["-", "-gw"]), vec!["-", "-gw"]);
    assert_eq!(expand(&["--long", "-gw", "x"]), vec!["--long", "-g", "-w", "x"]);
    assert_eq!(expand(&["-gt", "x"]), vec!["-gt", "x"]);
    assert_eq!(expand(&[]), Vec::<String>::new());
}

#[test]
fn arguments_are_quoted_only_when_needed() {
    assert_eq!(escape_argument(String::new()), "''");
    assert_eq!(escape_argument("plain".to_owned()), "plain");
    assert_eq!(escape_argument("two words".to_owned()), "'two words'");
    assert_eq!(escape_argument("it's".to_owned()), "'it'\\''s'");
    assert_eq!(escape_argument("a;b".to_owned()), "'a;b'");
}

#[test]
fn option_and_unbind_checks() {
    let at = option_command("set-option", &["-g", "@x", "1"], "@x", Some("1"), true, true);
    assert!(!validate_set_option(&at));
    let unset = option_command("set-option", &["-gu", "status"], "status", None, true, true);
    assert!(validate_set_option(&unset));
    assert_eq!(compatible_command(&unset), Some("set-option -g -u status".to_owned()));
    let no_args = ParsedCommand { arguments: None, ..set(&["-g", "status", "on"], "status", "on") };
    assert!(!validate_set_option(&no_args));
    assert_eq!(compatible_command(&no_args), None);

    let unknown_key = ParsedCommand {
        name: "unbind-key".to_owned(),
        arguments: Some(strings(&["Nope"])),
        check: CommandCheck::UnbindKey {
            all: false,
            has_key: true,
            key_known: false,
            quiet: true,
            table_exists: true,
        },
    };
    assert!(!validate_unbind_key(&unknown_key));
    let missing_table = ParsedCommand {
        name: "unbind-key".to_owned(),
        arguments: Some(strings(&["-T", "nope", "C-b"])),
        check: CommandCheck::UnbindKey {
            all: false,
            has_key: true,
            key_known: true,
            quiet: false,
            table_exists: false,
        },
    };
    assert!(!validate_unbind_key(&missing_table));
    assert!(validate_unbind_key(&unbind(&["C-b"], false, true, false)));
    assert!(!validate_unbind_key(&unbind(&[], false, false, true)));
    assert_eq!(
        compatible_command(&unbind(&["-qn", "C-b"], false, true, true)),
        Some("unbind-key -q -n C-b".to_owned())
    );
}

#[test]
fn brace_depth_grows_with_the_starting_depth_and_by_at_most_the_open_braces() {
    let line = "if -F 1 { set -g x '{' ; } } {";
    for (low, high) in [(0usize, 0usize), (0, 3), (2, 5), (1, 1)] {
        let a = apply_brace_depth(line, low);
        let b = apply_brace_depth(line, high);
        assert!(a <= b);
        assert!(a <= low + line.matches('{').count());
    }
    assert_eq!(apply_brace_depth("set -g status off", 4), 4);
}

#[test]
fn set_option_name_and_value_come_from_the_line_itself() {
    // The option table would take the line, but the arguments themselves
    // name a user option: it is not brought over.
    let cmd = ParsedCommand {
        name: "set-option".to_owned(),
        arguments: Some(strings(&["-g", "@plugin", "tpm"])),
        check: CommandCheck::SetOption { request_accepted: true, allowlisted: true, store_accepts: true },
    };
    assert!(!validate_set_option(&cmd));
    let cmd = ParsedCommand {
        name: "set-option".to_owned(),
        arguments: Some(strings(&["-g", "status-right", "#(date)"])),
        check: CommandCheck::SetOption { request_accepted: true, allowlisted: true, store_accepts: true },
    };
    assert!(!validate_set_option(&cmd));
    let cmd = ParsedCommand {
        name: "set-option".to_owned(),
        arguments: Some(strings(&["-sw", "status", "on"])),
        check: CommandCheck::SetOption { request_accepted: true, allowlisted: true, store_accepts: true },
    };
    assert!(!validate_set_option(&cmd));
    let cmd = ParsedCommand {
        name: "set-option".to_owned(),
        arguments: Some(strings(&["-g", "status", "on"])),
        check: CommandCheck::SetOption { request_accepted: false, allowlisted: true, store_accepts: true },
    };
    assert!(!validate_set_option(&cmd));
    let cmd = ParsedCommand {
        name: "set-option".to_owned(),
        arguments: Some(strings(&["-ga", "status", "on"])),
        check: CommandCheck::SetOption { request_accepted: true, allowlisted: true, store_accepts: true },
    };
    assert!(validate_set_option(&cmd));
}
