use rmux_server::option_scope::{
    build_global_or_session_scope, resolve_set_option_scope, ScopeSelector, resolve_show_options_scope, OptionScopeSelector, PaneTarget,
    ScopeError, Target, WindowTarget,
};

fn pane() -> PaneTarget {
    PaneTarget { session_name: "work".to_owned(), window_index: 2, pane_index: 1 }
}

fn window() -> WindowTarget {
    WindowTarget { session_name: "work".to_owned(), window_index: Some(2) }
}

type Outcome = Result<OptionScopeSelector, ScopeError<String>>;

fn show(
    global: bool,
    server: bool,
    window: bool,
    pane: bool,
    target: Option<Target>,
    named: Option<Result<OptionScopeSelector, String>>,
) -> Outcome {
    resolve_show_options_scope("show-options", global, server, window, pane, target, named)
}

fn server_error(message: &str) -> Outcome {
    Err(ScopeError::Server(message.to_owned()))
}

#[test]
fn show_options_scope_flags() {
    assert_eq!(show(true, false, false, true, None, None), server_error("show-options does not support combining -g and -p"));
    assert_eq!(show(false, true, true, false, None, None), server_error("show-options accepts at most one of -s, -w, or -p"));
    assert_eq!(show(false, true, false, false, Some(Target::Pane(pane())), None), Ok(OptionScopeSelector::ServerGlobal));
    assert_eq!(show(true, false, true, false, None, None), Ok(OptionScopeSelector::WindowGlobal));
    assert_eq!(
        show(false, false, true, false, Some(Target::Pane(pane())), None),
        Ok(OptionScopeSelector::Window(window()))
    );
    assert_eq!(
        show(false, false, true, false, Some(Target::Session("work".to_owned())), None),
        Ok(OptionScopeSelector::Window(WindowTarget { session_name: "work".to_owned(), window_index: None }))
    );
    assert_eq!(show(false, false, true, false, None, None), server_error("show-options -w requires a target"));
    assert_eq!(show(false, false, false, true, Some(Target::Pane(pane())), None), Ok(OptionScopeSelector::Pane(pane())));
    assert_eq!(
        show(false, false, false, true, Some(Target::Window(window())), None),
        server_error("show-options -p requires a pane target")
    );
    assert_eq!(show(false, false, false, true, None, None), server_error("show-options -p requires a target"));
    assert_eq!(show(true, false, false, false, None, None), Ok(OptionScopeSelector::SessionGlobal));
    assert_eq!(
        show(true, false, false, false, None, Some(Ok(OptionScopeSelector::WindowGlobal))),
        Ok(OptionScopeSelector::WindowGlobal)
    );
    assert_eq!(
        show(true, false, false, false, None, Some(Err("unknown option".to_owned()))),
        Err(ScopeError::Table("unknown option".to_owned()))
    );
    assert_eq!(show(false, false, false, false, Some(Target::Window(window())), None), Ok(OptionScopeSelector::Window(window())));
    assert_eq!(show(false, false, false, false, None, None), server_error("show-options requires -g, -s, or a target"));
}

fn set(
    option: &str,
    flags: (bool, bool, bool, bool),
    target: Option<Target>,
    supports: &dyn Fn(&OptionScopeSelector) -> bool,
) -> Outcome {
    let (global, server, window, pane) = flags;
    resolve_set_option_scope(
        option,
        global,
        server,
        window,
        pane,
        target,
        Ok(()),
        Ok(OptionScopeSelector::SessionGlobal),
        &|s: &OptionScopeSelector| supports(s),
    )
}

#[test]
fn set_option_scope_follows_table_support() {
    let window_only = |s: &OptionScopeSelector| {
        matches!(s, OptionScopeSelector::Window(_) | OptionScopeSelector::WindowGlobal)
    };
    assert_eq!(
        set("mode-style", (false, true, false, false), None, &window_only),
        server_error("server scope is not supported for this option")
    );
    assert_eq!(set("@mine", (false, true, false, false), None, &window_only), Ok(OptionScopeSelector::ServerGlobal));
    assert_eq!(
        set("mode-style", (false, false, false, false), Some(Target::Pane(pane())), &window_only),
        Ok(OptionScopeSelector::Window(window()))
    );
    assert_eq!(
        set("@mine", (false, false, false, false), Some(Target::Pane(pane())), &window_only),
        Ok(OptionScopeSelector::Session("work".to_owned()))
    );
    assert_eq!(
        set("status", (false, false, false, false), Some(Target::Window(window())), &|s| matches!(s, OptionScopeSelector::Session(_))),
        Ok(OptionScopeSelector::Session("work".to_owned()))
    );
    assert_eq!(
        set("status", (false, false, false, false), Some(Target::Pane(pane())), &|_| false),
        server_error("target scope is not supported for this option")
    );
    assert_eq!(
        set("mode-style", (false, false, false, true), Some(Target::Window(window())), &window_only),
        server_error("set-option -p requires a pane target")
    );
    assert_eq!(
        set("mode-style", (false, false, true, false), None, &window_only),
        server_error("set-window-option requires a window target or -g")
    );
    assert_eq!(set("mode-style", (true, false, true, false), None, &window_only), Ok(OptionScopeSelector::WindowGlobal));
    assert_eq!(
        set("status", (true, false, false, false), None, &window_only),
        server_error("global scope is not supported for this option")
    );
    assert_eq!(
        set("status", (false, false, false, false), None, &window_only),
        server_error("set-option requires a target or one of -g, -s, -w, or -p")
    );
}

#[test]
fn option_table_errors_come_first() {
    let outcome: Outcome = resolve_set_option_scope(
        "bogus",
        true,
        true,
        false,
        false,
        None,
        Err("invalid option: bogus".to_owned()),
        Ok(OptionScopeSelector::SessionGlobal),
        &|_: &OptionScopeSelector| true,
    );
    assert_eq!(outcome, Err(ScopeError::Table("invalid option: bogus".to_owned())));
    let outcome: Outcome = resolve_set_option_scope(
        "status",
        true,
        false,
        false,
        false,
        None,
        Ok(()),
        Err("no default".to_owned()),
        &|_: &OptionScopeSelector| true,
    );
    assert_eq!(outcome, Err(ScopeError::Table("no default".to_owned())));
}

#[test]
fn environment_scope_needs_exactly_one_of_global_and_target() {
    assert_eq!(build_global_or_session_scope("set-environment", true, None), Ok(ScopeSelector::Global));
    assert_eq!(
        build_global_or_session_scope("set-environment", false, Some("work".to_owned())),
        Ok(ScopeSelector::Session("work".to_owned()))
    );
    let message = "show-environment requires exactly one of -g or -t target".to_owned();
    assert_eq!(build_global_or_session_scope("show-environment", false, None), Err(message.clone()));
    assert_eq!(
        build_global_or_session_scope("show-environment", true, Some("work".to_owned())),
        Err(message)
    );
}
