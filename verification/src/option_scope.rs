use vstd::prelude::*;

verus! {

/// A window of a session: a given window, or the session's current one.
#[derive(Debug, Clone, PartialEq, Eq)]
pub struct WindowTarget {
    pub session_name: String,
    pub window_index: Option<u32>,
}

/// A pane of a window of a session.
#[derive(Debug, Clone, PartialEq, Eq)]
pub struct PaneTarget {
    pub session_name: String,
    pub window_index: u32,
    pub pane_index: u32,
}

/// What a `-t` argument names.
#[derive(Debug, Clone, PartialEq, Eq)]
pub enum Target {
    Session(String),
    Window(WindowTarget),
    Pane(PaneTarget),
}

/// Where an option is read or written.
#[derive(Debug, Clone, PartialEq, Eq)]
pub enum OptionScopeSelector {
    ServerGlobal,
    SessionGlobal,
    WindowGlobal,
    Session(String),
    Window(WindowTarget),
    Pane(PaneTarget),
}

/// Where an environment variable is read or written.
#[derive(Debug, Clone, PartialEq, Eq)]
pub enum ScopeSelector {
    Global,
    Session(String),
}

/// The environment scope from `-g` and `-t`: exactly one of them is needed.
pub open spec fn global_or_session_scope_spec(
    command: Seq<char>,
    global: bool,
    target: Option<String>,
) -> Result<ScopeSelector, Seq<char>> {
    match (global, target) {
        (true, None) => Ok(ScopeSelector::Global),
        (false, Some(name)) => Ok(ScopeSelector::Session(name)),
        _ => Err(command + " requires exactly one of -g or -t target"@),
    }
}

/// Chooses the environment scope of `set-environment` or `show-environment`;
/// the error is the message shown to the user.
pub fn build_global_or_session_scope(command: &str, global: bool, target: Option<String>) -> (r:
    Result<ScopeSelector, String>)
    ensures
        match r {
            Ok(s) => global_or_session_scope_spec(command@, global, target) == Ok::<
                ScopeSelector,
                Seq<char>,
            >(s),
            Err(m) => global_or_session_scope_spec(command@, global, target) == Err::<
                ScopeSelector,
                Seq<char>,
            >(m@),
        },
{
    match (global, target) {
        (true, None) => Ok(ScopeSelector::Global),
        (false, Some(name)) => Ok(ScopeSelector::Session(name)),
        _ => Err(message(command, " requires exactly one of -g or -t target")),
    }
}

/// Why a scope could not be chosen: a message of the scope rules here, or an
/// error that the option table reported (of type `E`).
#[derive(Debug, PartialEq, Eq)]
pub enum ScopeError<E> {
    Server(String),
    Table(E),
}

/// The abstract value of a scope error: the message as characters.
pub enum ScopeErrorView<E> {
    Server(Seq<char>),
    Table(E),
}

pub open spec fn scope_result_view<E>(r: Result<OptionScopeSelector, ScopeError<E>>) -> Result<
    OptionScopeSelector,
    ScopeErrorView<E>,
> {
    match r {
        Ok(s) => Ok(s),
        Err(ScopeError::Server(m)) => Err(ScopeErrorView::Server(m@)),
        Err(ScopeError::Table(e)) => Err(ScopeErrorView::Table(e)),
    }
}

/// The window that holds a pane.
pub open spec fn pane_window(t: PaneTarget) -> WindowTarget {
    WindowTarget { session_name: t.session_name, window_index: Some(t.window_index) }
}

/// The window scope that a target stands for: a session's current window, the
/// window itself, or the window that holds the pane.
pub open spec fn window_of_target(target: Target) -> WindowTarget {
    match target {
        Target::Session(s) => WindowTarget { session_name: s, window_index: None },
        Target::Window(w) => w,
        Target::Pane(p) => pane_window(p),
    }
}

pub open spec fn server_error<E>(m: Seq<char>) -> Result<OptionScopeSelector, ScopeErrorView<E>> {
    Err(ScopeErrorView::Server(m))
}

/// The scope that `show-options` reads, from its flags and target.
/// `named_default_global` is the option table's default global scope for the
/// option named on the command line, if one was named.
pub open spec fn show_options_scope_spec<E>(
    command: Seq<char>,
    global: bool,
    server: bool,
    window: bool,
    pane: bool,
    target: Option<Target>,
    named_default_global: Option<Result<OptionScopeSelector, E>>,
) -> Result<OptionScopeSelector, ScopeErrorView<E>> {
    if global && pane {
        server_error(command + " does not support combining -g and -p"@)
    } else if (server as int) + (window as int) + (pane as int) > 1 {
        server_error(command + " accepts at most one of -s, -w, or -p"@)
    } else if server {
        Ok(OptionScopeSelector::ServerGlobal)
    } else if window {
        if global {
            Ok(OptionScopeSelector::WindowGlobal)
        } else {
            match target {
                Some(t) => Ok(OptionScopeSelector::Window(window_of_target(t))),
                None => server_error(command + " -w requires a target"@),
            }
        }
    } else if pane {
        match target {
            Some(Target::Pane(p)) => Ok(OptionScopeSelector::Pane(p)),
            Some(_) => server_error(command + " -p requires a pane target"@),
            None => server_error(command + " -p requires a target"@),
        }
    } else if global {
        match named_default_global {
            Some(Ok(s)) => Ok(s),
            Some(Err(e)) => Err(ScopeErrorView::Table(e)),
            None => Ok(OptionScopeSelector::SessionGlobal),
        }
    } else {
        match target {
            Some(Target::Session(s)) => Ok(OptionScopeSelector::Session(s)),
            Some(Target::Window(w)) => Ok(OptionScopeSelector::Window(w)),
            Some(Target::Pane(p)) => Ok(OptionScopeSelector::Pane(p)),
            None => server_error(command + " requires -g, -s, or a target"@),
        }
    }
}

fn message(command: &str, text: &str) -> (m: String)
    ensures
        m@ == command@ + text@,
{
    let mut m = String::from_str(command);
    m.append(text);
    m
}

/// Chooses the scope that `show-options` (or `show-window-options`) reads.
pub fn resolve_show_options_scope<E>(
    command: &str,
    global: bool,
    server: bool,
    window: bool,
    pane: bool,
    target: Option<Target>,
    named_default_global: Option<Result<OptionScopeSelector, E>>,
) -> (r: Result<OptionScopeSelector, ScopeError<E>>)
    ensures
        scope_result_view(r) == show_options_scope_spec(
            command@,
            global,
            server,
            window,
            pane,
            target,
            named_default_global,
        ),
{
    if global && pane {
        return Err(
            ScopeError::Server(message(command, " does not support combining -g and -p")),
        );
    }
    let mut count: usize = 0;
    if server {
        count = count + 1;
    }
    if window {
        count = count + 1;
    }
    if pane {
        count = count + 1;
    }
    if count > 1 {
        return Err(ScopeError::Server(message(command, " accepts at most one of -s, -w, or -p")));
    }
    if server {
        return Ok(OptionScopeSelector::ServerGlobal);
    }
    if window {
        if global {
            return Ok(OptionScopeSelector::WindowGlobal);
        }
        return match target {
            Some(Target::Session(s)) => Ok(
                OptionScopeSelector::Window(WindowTarget { session_name: s, window_index: None }),
            ),
            Some(Target::Window(w)) => Ok(OptionScopeSelector::Window(w)),
            Some(Target::Pane(p)) => Ok(
                OptionScopeSelector::Window(
                    WindowTarget { session_name: p.session_name, window_index: Some(p.window_index) },
                ),
            ),
            None => Err(ScopeError::Server(message(command, " -w requires a target"))),
        };
    }
    if pane {
        return match target {
            Some(Target::Pane(p)) => Ok(OptionScopeSelector::Pane(p)),
            Some(_) => Err(ScopeError::Server(message(command, " -p requires a pane target"))),
            None => Err(ScopeError::Server(message(command, " -p requires a target"))),
        };
    }
    if global {
        return match named_default_global {
            Some(Ok(s)) => Ok(s),
            Some(Err(e)) => Err(ScopeError::Table(e)),
            None => Ok(OptionScopeSelector::SessionGlobal),
        };
    }
    match target {
        Some(Target::Session(s)) => Ok(OptionScopeSelector::Session(s)),
        Some(Target::Window(w)) => Ok(OptionScopeSelector::Window(w)),
        Some(Target::Pane(p)) => Ok(OptionScopeSelector::Pane(p)),
        None => Err(ScopeError::Server(message(command, " requires -g, -s, or a target"))),
    }
}

/// A user option: its name (before any `[index]`) starts with `@`.
pub open spec fn is_user_option(option: Seq<char>) -> bool {
    option.len() > 0 && option[0] == '@'
}

/// A scope is acceptable for a user option, or when the option table
/// supports the option there.
pub open spec fn accepted_in(is_user: bool, sup: spec_fn(OptionScopeSelector) -> bool, s: OptionScopeSelector) -> bool {
    is_user || sup(s)
}

/// The scope that `set-option` writes, from its flags and target.
/// `name_check` is the option table's verdict on the option's name,
/// `default_global` its default global scope, and `sup` tells which scopes the
/// table supports for the option.
pub open spec fn set_option_scope_spec<E>(
    option: Seq<char>,
    global: bool,
    server: bool,
    window: bool,
    pane: bool,
    target: Option<Target>,
    name_check: Result<(), E>,
    default_global: Result<OptionScopeSelector, E>,
    sup: spec_fn(OptionScopeSelector) -> bool,
) -> Result<OptionScopeSelector, ScopeErrorView<E>> {
    let user = is_user_option(option);
    if name_check is Err {
        Err(ScopeErrorView::Table(name_check->Err_0))
    } else if server {
        if accepted_in(user, sup, OptionScopeSelector::ServerGlobal) {
            Ok(OptionScopeSelector::ServerGlobal)
        } else {
            server_error("server scope is not supported for this option"@)
        }
    } else if pane {
        match target {
            Some(Target::Pane(p)) => if accepted_in(user, sup, OptionScopeSelector::Pane(p)) {
                Ok(OptionScopeSelector::Pane(p))
            } else {
                server_error("pane scope is not supported for this option"@)
            },
            _ => server_error("set-option -p requires a pane target"@),
        }
    } else if window {
        if global {
            if accepted_in(user, sup, OptionScopeSelector::WindowGlobal) {
                Ok(OptionScopeSelector::WindowGlobal)
            } else {
                server_error("window scope is not supported for this option"@)
            }
        } else {
            match target {
                None => server_error("set-window-option requires a window target or -g"@),
                Some(t) => {
                    let s = OptionScopeSelector::Window(window_of_target(t));
                    if accepted_in(user, sup, s) {
                        Ok(s)
                    } else {
                        server_error("window scope is not supported for this option"@)
                    }
                },
            }
        }
    } else if global {
        match default_global {
            Err(e) => Err(ScopeErrorView::Table(e)),
            Ok(s) => if accepted_in(user, sup, s) {
                Ok(s)
            } else {
                server_error("global scope is not supported for this option"@)
            },
        }
    } else {
        match target {
            None => server_error("set-option requires a target or one of -g, -s, -w, or -p"@),
            Some(t) => {
                let s = match t {
                    Target::Session(name) => OptionScopeSelector::Session(name),
                    Target::Window(w) => if user {
                        OptionScopeSelector::Session(w.session_name)
                    } else if sup(OptionScopeSelector::Window(w)) {
                        OptionScopeSelector::Window(w)
                    } else {
                        OptionScopeSelector::Session(w.session_name)
                    },
                    Target::Pane(p) => if user {
                        OptionScopeSelector::Session(p.session_name)
                    } else if sup(OptionScopeSelector::Pane(p)) {
                        OptionScopeSelector::Pane(p)
                    } else if sup(OptionScopeSelector::Window(pane_window(p))) {
                        OptionScopeSelector::Window(pane_window(p))
                    } else {
                        OptionScopeSelector::Session(p.session_name)
                    },
                };
                if accepted_in(user, sup, s) {
                    Ok(s)
                } else {
                    server_error("target scope is not supported for this option"@)
                }
            },
        }
    }
}

/// Whether `supports` answers as the predicate `sup` does.
pub open spec fn computes<F: Fn(&OptionScopeSelector) -> bool>(
    supports: F,
    sup: spec_fn(OptionScopeSelector) -> bool,
) -> bool {
    forall|s: OptionScopeSelector, b: bool| #[trigger] supports.ensures((&s,), b) ==> b == sup(s)
}

fn copy_window_target(w: &WindowTarget) -> (r: WindowTarget)
    ensures
        r == *w,
{
    WindowTarget { session_name: w.session_name.clone(), window_index: w.window_index }
}

fn copy_pane_target(p: &PaneTarget) -> (r: PaneTarget)
    ensures
        r == *p,
{
    PaneTarget {
        session_name: p.session_name.clone(),
        window_index: p.window_index,
        pane_index: p.pane_index,
    }
}

fn starts_with_at(s: &str) -> (r: bool)
    ensures
        r == is_user_option(s@),
{
    let c = crate::text::chars_of(s);
    c.len() > 0 && c[0] == '@'
}

/// Chooses the scope that `set-option` writes. `supports` asks the option
/// table whether the option may be set in a scope; the outcome is exact for
/// every answer that `supports` gives as a function of the scope alone.
pub fn resolve_set_option_scope<E, F: Fn(&OptionScopeSelector) -> bool>(
    option: &str,
    global: bool,
    server: bool,
    window: bool,
    pane: bool,
    target: Option<Target>,
    name_check: Result<(), E>,
    default_global: Result<OptionScopeSelector, E>,
    supports: &F,
) -> (r: Result<OptionScopeSelector, ScopeError<E>>)
    requires
        forall|s: &OptionScopeSelector| supports.requires((s,)),
    ensures
        forall|sup: spec_fn(OptionScopeSelector) -> bool|
            computes(*supports, sup) ==> scope_result_view(r) == set_option_scope_spec(
                option@,
                global,
                server,
                window,
                pane,
                target,
                name_check,
                default_global,
                sup,
            ),
{
    if let Err(e) = name_check {
        return Err(ScopeError::Table(e));
    }
    let user = starts_with_at(option);
    if server {
        let scope = OptionScopeSelector::ServerGlobal;
        if !user && !supports(&scope) {
            return Err(
                ScopeError::Server(String::from_str("server scope is not supported for this option")),
            );
        }
        return Ok(scope);
    }
    if pane {
        let p = match target {
            Some(Target::Pane(p)) => p,
            _ => {
                return Err(
                    ScopeError::Server(String::from_str("set-option -p requires a pane target")),
                );
            },
        };
        let scope = OptionScopeSelector::Pane(p);
        if !user && !supports(&scope) {
            return Err(
                ScopeError::Server(String::from_str("pane scope is not supported for this option")),
            );
        }
        return Ok(scope);
    }
    if window {
        if global {
            let scope = OptionScopeSelector::WindowGlobal;
            if !user && !supports(&scope) {
                return Err(
                    ScopeError::Server(
                        String::from_str("window scope is not supported for this option"),
                    ),
                );
            }
            return Ok(scope);
        }
        let t = match target {
            Some(t) => t,
            None => {
                return Err(
                    ScopeError::Server(
                        String::from_str("set-window-option requires a window target or -g"),
                    ),
                );
            },
        };
        let scope = match t {
            Target::Session(s) => OptionScopeSelector::Window(
                WindowTarget { session_name: s, window_index: None },
            ),
            Target::Window(w) => OptionScopeSelector::Window(w),
            Target::Pane(p) => OptionScopeSelector::Window(
                WindowTarget { session_name: p.session_name, window_index: Some(p.window_index) },
            ),
        };
        if !user && !supports(&scope) {
            return Err(
                ScopeError::Server(String::from_str("window scope is not supported for this option")),
            );
        }
        return Ok(scope);
    }
    if global {
        let scope = match default_global {
            Ok(s) => s,
            Err(e) => {
                return Err(ScopeError::Table(e));
            },
        };
        if !user && !supports(&scope) {
            return Err(
                ScopeError::Server(String::from_str("global scope is not supported for this option")),
            );
        }
        return Ok(scope);
    }
    let t = match target {
        Some(t) => t,
        None => {
            return Err(
                ScopeError::Server(
                    String::from_str("set-option requires a target or one of -g, -s, -w, or -p"),
                ),
            );
        },
    };
    let scope = match t {
        Target::Session(name) => OptionScopeSelector::Session(name),
        Target::Window(w) => {
            if user {
                OptionScopeSelector::Session(w.session_name)
            } else {
                let candidate = OptionScopeSelector::Window(copy_window_target(&w));
                if supports(&candidate) {
                    candidate
                } else {
                    OptionScopeSelector::Session(w.session_name)
                }
            }
        },
        Target::Pane(p) => {
            if user {
                OptionScopeSelector::Session(p.session_name)
            } else {
                let pane_candidate = OptionScopeSelector::Pane(copy_pane_target(&p));
                if supports(&pane_candidate) {
                    pane_candidate
                } else {
                    let window_candidate = OptionScopeSelector::Window(
                        WindowTarget {
                            session_name: p.session_name.clone(),
                            window_index: Some(p.window_index),
                        },
                    );
                    if supports(&window_candidate) {
                        window_candidate
                    } else {
                        OptionScopeSelector::Session(p.session_name)
                    }
                }
            }
        },
    };
    if !user && !supports(&scope) {
        return Err(
            ScopeError::Server(String::from_str("target scope is not supported for this option")),
        );
    }
    Ok(scope)
}

/// A user option (`@name`) never consults the option table for its scope:
/// the chosen scope is the same whatever the table supports.
pub proof fn law_user_options_ignore_table_support<E>(
    option: Seq<char>,
    global: bool,
    server: bool,
    window: bool,
    pane: bool,
    target: Option<Target>,
    name_check: Result<(), E>,
    default_global: Result<OptionScopeSelector, E>,
    sup1: spec_fn(OptionScopeSelector) -> bool,
    sup2: spec_fn(OptionScopeSelector) -> bool,
)
    requires
        is_user_option(option),
    ensures
        set_option_scope_spec(option, global, server, window, pane, target, name_check, default_global, sup1)
            == set_option_scope_spec(option, global, server, window, pane, target, name_check, default_global, sup2),
{
}

/// `show-options -s` reads the server scope whenever the flags are
/// consistent, whatever the target.
pub proof fn law_show_server_scope_ignores_target<E>(
    command: Seq<char>,
    global: bool,
    target: Option<Target>,
    named_default_global: Option<Result<OptionScopeSelector, E>>,
)
    ensures
        show_options_scope_spec(command, global, true, false, false, target, named_default_global)
            == Ok::<OptionScopeSelector, ScopeErrorView<E>>(OptionScopeSelector::ServerGlobal),
{
}


/// The window a target names when a window scope is asked for: the session's
/// current window for a session, the window itself (its index kept) for a
/// window, and the pane's window for a pane.
pub open spec fn named_window(target: Target) -> WindowTarget {
    match target {
        Target::Session(name) => WindowTarget { session_name: name, window_index: None },
        Target::Window(w) => WindowTarget { session_name: w.session_name, window_index: w.window_index },
        Target::Pane(p) => WindowTarget {
            session_name: p.session_name,
            window_index: Some(p.window_index),
        },
    }
}

/// `set-option -w` (or `set-window-option`) with a target and without `-g`,
/// `-s` and `-p` writes exactly the window that the target names, with the
/// window index given in the target kept, where the option may live there;
/// it is refused otherwise. It is the scope that `show-options -w` reads for
/// the same target.
pub proof fn law_window_set_writes_the_named_window<E>(
    option: Seq<char>,
    target: Target,
    default_global: Result<OptionScopeSelector, E>,
    sup: spec_fn(OptionScopeSelector) -> bool,
    command: Seq<char>,
    named_default_global: Option<Result<OptionScopeSelector, E>>,
)
    ensures
        set_option_scope_spec(option, false, false, true, false, Some(target), Ok(()), default_global, sup)
            == if is_user_option(option) || sup(OptionScopeSelector::Window(named_window(target))) {
            Ok::<OptionScopeSelector, ScopeErrorView<E>>(
                OptionScopeSelector::Window(named_window(target)),
            )
        } else {
            Err(ScopeErrorView::Server("window scope is not supported for this option"@))
        },
        show_options_scope_spec(command, false, false, true, false, Some(target), named_default_global)
            == Ok::<OptionScopeSelector, ScopeErrorView<E>>(
            OptionScopeSelector::Window(named_window(target)),
        ),
{
}

/// `set-option` with a window target and no scope flag writes that window
/// (its index kept) when the option table supports the option there, and the
/// window's session otherwise; a user option always goes to the session.
pub proof fn law_plain_set_on_window_target<E>(
    option: Seq<char>,
    w: WindowTarget,
    default_global: Result<OptionScopeSelector, E>,
    sup: spec_fn(OptionScopeSelector) -> bool,
)
    ensures
        set_option_scope_spec(option, false, false, false, false, Some(Target::Window(w)), Ok(()), default_global, sup)
            == if !is_user_option(option) && sup(OptionScopeSelector::Window(w)) {
            Ok::<OptionScopeSelector, ScopeErrorView<E>>(OptionScopeSelector::Window(w))
        } else if is_user_option(option) || sup(OptionScopeSelector::Session(w.session_name)) {
            Ok(OptionScopeSelector::Session(w.session_name))
        } else {
            Err(ScopeErrorView::Server("target scope is not supported for this option"@))
        },
{
}

} // verus!
