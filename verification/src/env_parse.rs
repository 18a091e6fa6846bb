use vstd::prelude::*;

use crate::config_parse::{
    checks_targets, parse_error_view, refused, ParseError, ParseErrorView, error_view, opt_view, single_flag, starts_with_dash, token_flag, token_starts_with_dash,
    CommandError, CommandErrorView,
};
use crate::option_scope::{build_global_or_session_scope, ScopeSelector};
use crate::pane_parse::{leftover, missing_value, refusal};
use crate::session_parse::unsupported;
use crate::source_files::string_views;

verus! {

/// The abstract value of an environment scope.
pub enum EnvScopeView {
    Global,
    Session(Seq<char>),
}

pub open spec fn env_scope_view(s: ScopeSelector) -> EnvScopeView {
    match s {
        ScopeSelector::Global => EnvScopeView::Global,
        ScopeSelector::Session(name) => EnvScopeView::Session(name@),
    }
}

/// The environment scope of `-g` and the raw `-t` target: exactly one of
/// them is needed.
pub open spec fn env_scope_spec(command: Seq<char>, global: bool, target: Option<Seq<char>>) -> Result<
    EnvScopeView,
    CommandErrorView,
> {
    match (global, target) {
        (true, None) => Ok(EnvScopeView::Global),
        (false, Some(name)) => Ok(EnvScopeView::Session(name)),
        _ => Err(CommandErrorView::Refused(command + " requires exactly one of -g or -t target"@)),
    }
}

fn env_scope(command: &str, global: bool, target: Option<String>) -> (r: Result<
    ScopeSelector,
    CommandError,
>)
    ensures
        match r {
            Ok(s) => env_scope_spec(command@, global, opt_view(target)) == Ok::<
                EnvScopeView,
                CommandErrorView,
            >(env_scope_view(s)),
            Err(e) => env_scope_spec(command@, global, opt_view(target)) == Err::<
                EnvScopeView,
                CommandErrorView,
            >(error_view(e)),
        },
{
    match build_global_or_session_scope(command, global, target) {
        Ok(s) => Ok(s),
        Err(m) => Err(CommandError::Refused(m)),
    }
}

// ---------------------------------------------------------------------------
// set-environment
// ---------------------------------------------------------------------------

/// How `set-environment` changes a variable.
#[derive(Debug, Clone, Copy, PartialEq, Eq, Structural)]
pub enum SetEnvironmentMode {
    /// Set it to a value.
    Assign,
    /// Mark it to be removed from the environment of new processes (`-r`).
    Clear,
    /// Remove it (`-u`).
    Unset,
}

/// The flags of a `set-environment` command line read so far.
pub struct SetEnvironmentState {
    pub global: bool,
    pub format: bool,
    pub hidden: bool,
    pub mode: SetEnvironmentMode,
    pub target: Option<Seq<char>>,
}

pub open spec fn set_environment_initial() -> SetEnvironmentState {
    SetEnvironmentState {
        global: false,
        format: false,
        hidden: false,
        mode: SetEnvironmentMode::Assign,
        target: None,
    }
}

/// The leading flags of a `set-environment` command line from token `i` on;
/// the last of `-r` and `-u` decides the mode.
pub open spec fn set_environment_loop<E>(
    args: Seq<Seq<char>>,
    i: int,
    chk: spec_fn(Seq<char>) -> Result<(), E>,
    st: SetEnvironmentState,
) -> Result<(SetEnvironmentState, int), ParseErrorView<E>>
    decreases args.len() - i,
{
    if i < 0 || i >= args.len() {
        Ok((st, i))
    } else {
        let f = single_flag(args[i]);
        if f == Some('-') {
            Ok((st, i + 1))
        } else if f == Some('F') {
            set_environment_loop(args, i + 1, chk, SetEnvironmentState { format: true, ..st })
        } else if f == Some('g') {
            set_environment_loop(args, i + 1, chk, SetEnvironmentState { global: true, ..st })
        } else if f == Some('h') {
            set_environment_loop(args, i + 1, chk, SetEnvironmentState { hidden: true, ..st })
        } else if f == Some('r') {
            set_environment_loop(
                args,
                i + 1,
                chk,
                SetEnvironmentState { mode: SetEnvironmentMode::Clear, ..st },
            )
        } else if f == Some('u') {
            set_environment_loop(
                args,
                i + 1,
                chk,
                SetEnvironmentState { mode: SetEnvironmentMode::Unset, ..st },
            )
        } else if f == Some('t') {
            if i + 1 >= args.len() {
                Err(refused(CommandErrorView::MissingArgument("-t target"@)))
            } else if (f == Some('t')) && chk(args[i + 1]) is Err {
                Err(ParseErrorView::Target(chk(args[i + 1])->Err_0))
            } else {
                set_environment_loop(
                    args,
                    i + 2,
                    chk,
                    SetEnvironmentState { target: Some(args[i + 1]), ..st },
                )
            }
        } else {
            Ok((st, i))
        }
    }
}

/// What a `set-environment` command line says.
pub struct SetEnvironmentTokens {
    pub scope: ScopeSelector,
    pub name: String,
    pub value: String,
    pub mode: SetEnvironmentMode,
    pub hidden: bool,
    pub format: bool,
}

pub struct SetEnvironmentTokensView {
    pub scope: EnvScopeView,
    pub name: Seq<char>,
    pub value: Seq<char>,
    pub mode: SetEnvironmentMode,
    pub hidden: bool,
    pub format: bool,
}

impl SetEnvironmentTokens {
    pub open spec fn view(&self) -> SetEnvironmentTokensView {
        SetEnvironmentTokensView {
            scope: env_scope_view(self.scope),
            name: self.name@,
            value: self.value@,
            mode: self.mode,
            hidden: self.hidden,
            format: self.format,
        }
    }
}

/// A `set-environment` command line read: the flags, the scope, the name
/// (required), the value (required to set; empty by default to clear or
/// unset), and nothing more.
pub open spec fn set_environment_spec<E>(
    args: Seq<Seq<char>>,
    chk: spec_fn(Seq<char>) -> Result<(), E>,
) -> Result<SetEnvironmentTokensView, ParseErrorView<E>> {
    match set_environment_loop(args, 0, chk, set_environment_initial()) {
        Err(e) => Err(e),
        Ok((st, i)) => match env_scope_spec("set-environment"@, st.global, st.target) {
            Err(e) => Err(refused(e)),
            Ok(scope) => if i >= args.len() {
                Err(refused(CommandErrorView::MissingArgument("set-environment name"@)))
            } else if i + 1 >= args.len() && st.mode == SetEnvironmentMode::Assign {
                Err(refused(CommandErrorView::Refused("no value specified"@)))
            } else if i + 2 < args.len() {
                Err(refused(CommandErrorView::UnexpectedArgument("set-environment"@, args[i + 2])))
            } else {
                Ok(
                    SetEnvironmentTokensView {
                        scope,
                        name: args[i],
                        value: if i + 1 < args.len() {
                            args[i + 1]
                        } else {
                            Seq::empty()
                        },
                        mode: st.mode,
                        hidden: st.hidden,
                        format: st.format,
                    },
                )
            },
        },
    }
}

/// Reads a `set-environment` command line. `check` checks each target
/// word where it is given, before the flag that follows it is read.
pub fn parse_set_environment_tokens<E, F: Fn(&String) -> Result<(), E>>(args: &[String], check: &F) -> (r: Result<
    SetEnvironmentTokens,
    ParseError<E>,
>)
    requires
        forall|s: &String| check.requires((s,)),
    ensures
        forall|chk: spec_fn(Seq<char>) -> Result<(), E>|
            checks_targets(*check, chk) ==> match r {
                Ok(t) => set_environment_spec(string_views(args@), chk) == Ok::<SetEnvironmentTokensView, ParseErrorView<E>>(t.view()),
                Err(e) => set_environment_spec(string_views(args@), chk) == Err::<SetEnvironmentTokensView, ParseErrorView<E>>(
                    parse_error_view(e),
                ),
            },
{
    let ghost a = string_views(args@);
    let mut global = false;
    let mut format = false;
    let mut hidden = false;
    let mut mode = SetEnvironmentMode::Assign;
    let mut target: Option<String> = None;
    let mut i: usize = 0;
    let mut done = false;
    while i < args.len() && !done
        invariant
            i <= args@.len(),
            a == string_views(args@),
            forall|s: &String| check.requires((s,)),
            forall|chk: spec_fn(Seq<char>) -> Result<(), E>|
                checks_targets(*check, chk) ==> {
                    &&& !done ==> set_environment_loop(a, 0, chk, set_environment_initial()) == set_environment_loop(
                        a,
                        i as int,
                        chk,
                        SetEnvironmentState { global, format, hidden, mode, target: opt_view(target) },
                    )
                    &&& done ==> set_environment_loop(a, 0, chk, set_environment_initial()) == Ok::<
                        (SetEnvironmentState, int),
                        ParseErrorView<E>,
                    >(
                        (
                            SetEnvironmentState { global, format, hidden, mode, target: opt_view(target) },
                            i as int,
                        ),
                    )
                },
        decreases args.len() - i + (if done { 0int } else { 1int }),
    {
        proof {
            assert(a[i as int] == args@[i as int]@);
        }
        let f = token_flag(args[i].as_str());
        if f == Some('-') {
            i = i + 1;
            done = true;
        } else if f == Some('F') {
            format = true;
            i = i + 1;
        } else if f == Some('g') {
            global = true;
            i = i + 1;
        } else if f == Some('h') {
            hidden = true;
            i = i + 1;
        } else if f == Some('r') {
            mode = SetEnvironmentMode::Clear;
            i = i + 1;
        } else if f == Some('u') {
            mode = SetEnvironmentMode::Unset;
            i = i + 1;
        } else if f == Some('t') {
            if i + 1 >= args.len() {
                return Err(ParseError::Command(missing_value("-t target")));
            }
            proof {
                assert(a[i + 1] == args@[i + 1]@);
            }
            if f == Some('t') {
                let checked = check(&args[i + 1]);
                if let Err(e) = checked {
                    return Err(ParseError::Target(e));
                }
            }
            target = Some(args[i + 1].clone());
            i = i + 2;
        } else {
            done = true;
        }
    }
    let scope = match env_scope("set-environment", global, target) {
        Err(e) => {
            return Err(ParseError::Command(e));
        },
        Ok(s) => s,
    };
    if i >= args.len() {
        return Err(ParseError::Command(missing_value("set-environment name")));
    }
    proof {
        assert(a[i as int] == args@[i as int]@);
    }
    if i + 1 >= args.len() && mode == SetEnvironmentMode::Assign {
        return Err(ParseError::Command(refusal("no value specified")));
    }
    if args.len() - i > 2 {
        proof {
            assert(a[i + 2] == args@[i + 2]@);
        }
        return Err(ParseError::Command(leftover("set-environment", &args[i + 2])));
    }
    let value = if i + 1 < args.len() {
        proof {
            assert(a[i + 1] == args@[i + 1]@);
        }
        args[i + 1].clone()
    } else {
        String::new()
    };
    Ok(SetEnvironmentTokens { scope, name: args[i].clone(), value, mode, hidden, format })
}

// ---------------------------------------------------------------------------
// show-environment
// ---------------------------------------------------------------------------

/// The leading flags of a `show-environment` command line from token `i` on:
/// `-g`, `-h`, `-s`, the raw target, and where they end. Another word that
/// starts with `-` is an unsupported flag.
pub open spec fn show_environment_loop<E>(
    args: Seq<Seq<char>>,
    i: int,
    chk: spec_fn(Seq<char>) -> Result<(), E>,
    flags: (bool, bool, bool),
    target: Option<Seq<char>>,
) -> Result<((bool, bool, bool), Option<Seq<char>>, int), ParseErrorView<E>>
    decreases args.len() - i,
{
    if i < 0 || i >= args.len() {
        Ok((flags, target, i))
    } else {
        let f = single_flag(args[i]);
        if f == Some('-') {
            Ok((flags, target, i + 1))
        } else if f == Some('g') {
            show_environment_loop(args, i + 1, chk, (true, flags.1, flags.2), target)
        } else if f == Some('h') {
            show_environment_loop(args, i + 1, chk, (flags.0, true, flags.2), target)
        } else if f == Some('s') {
            show_environment_loop(args, i + 1, chk, (flags.0, flags.1, true), target)
        } else if f == Some('t') {
            if i + 1 >= args.len() {
                Err(refused(CommandErrorView::MissingArgument("-t target"@)))
            } else if (f == Some('t')) && chk(args[i + 1]) is Err {
                Err(ParseErrorView::Target(chk(args[i + 1])->Err_0))
            } else {
                show_environment_loop(args, i + 2, chk, flags, Some(args[i + 1]))
            }
        } else if starts_with_dash(args[i]) {
            Err(refused(CommandErrorView::UnsupportedFlag("show-environment"@, args[i])))
        } else {
            Ok((flags, target, i))
        }
    }
}

/// What a `show-environment` command line says.
pub struct ShowEnvironmentTokens {
    pub scope: ScopeSelector,
    pub name: Option<String>,
    pub hidden: bool,
    pub shell_format: bool,
}

pub struct ShowEnvironmentTokensView {
    pub scope: EnvScopeView,
    pub name: Option<Seq<char>>,
    pub hidden: bool,
    pub shell_format: bool,
}

impl ShowEnvironmentTokens {
    pub open spec fn view(&self) -> ShowEnvironmentTokensView {
        ShowEnvironmentTokensView {
            scope: env_scope_view(self.scope),
            name: opt_view(self.name),
            hidden: self.hidden,
            shell_format: self.shell_format,
        }
    }
}

/// A `show-environment` command line read: the flags, the scope, an
/// optional name, and nothing more.
pub open spec fn show_environment_spec<E>(
    args: Seq<Seq<char>>,
    chk: spec_fn(Seq<char>) -> Result<(), E>,
) -> Result<ShowEnvironmentTokensView, ParseErrorView<E>> {
    match show_environment_loop(args, 0, chk, (false, false, false), None) {
        Err(e) => Err(e),
        Ok((flags, target, i)) => match env_scope_spec("show-environment"@, flags.0, target) {
            Err(e) => Err(refused(e)),
            Ok(scope) => if i + 1 < args.len() {
                Err(refused(CommandErrorView::UnexpectedArgument("show-environment"@, args[i + 1])))
            } else {
                Ok(
                    ShowEnvironmentTokensView {
                        scope,
                        name: if i < args.len() {
                            Some(args[i])
                        } else {
                            None
                        },
                        hidden: flags.1,
                        shell_format: flags.2,
                    },
                )
            },
        },
    }
}

/// Reads a `show-environment` command line. `check` checks each target
/// word where it is given, before the flag that follows it is read.
pub fn parse_show_environment_tokens<E, F: Fn(&String) -> Result<(), E>>(args: &[String], check: &F) -> (r: Result<
    ShowEnvironmentTokens,
    ParseError<E>,
>)
    requires
        forall|s: &String| check.requires((s,)),
    ensures
        forall|chk: spec_fn(Seq<char>) -> Result<(), E>|
            checks_targets(*check, chk) ==> match r {
                Ok(t) => show_environment_spec(string_views(args@), chk) == Ok::<ShowEnvironmentTokensView, ParseErrorView<E>>(t.view()),
                Err(e) => show_environment_spec(string_views(args@), chk) == Err::<ShowEnvironmentTokensView, ParseErrorView<E>>(
                    parse_error_view(e),
                ),
            },
{
    let ghost a = string_views(args@);
    let mut global = false;
    let mut hidden = false;
    let mut shell_format = false;
    let mut target: Option<String> = None;
    let mut i: usize = 0;
    let mut done = false;
    while i < args.len() && !done
        invariant
            i <= args@.len(),
            a == string_views(args@),
            forall|s: &String| check.requires((s,)),
            forall|chk: spec_fn(Seq<char>) -> Result<(), E>|
                checks_targets(*check, chk) ==> {
                    &&& !done ==> show_environment_loop(a, 0, chk, (false, false, false), None)
                        == show_environment_loop(
                        a,
                        i as int,
                        chk,
                        (global, hidden, shell_format),
                        opt_view(target),
                    )
                    &&& done ==> show_environment_loop(a, 0, chk, (false, false, false), None) == Ok::<
                        ((bool, bool, bool), Option<Seq<char>>, int),
                        ParseErrorView<E>,
                    >(((global, hidden, shell_format), opt_view(target), i as int))
                },
        decreases args.len() - i + (if done { 0int } else { 1int }),
    {
        proof {
            assert(a[i as int] == args@[i as int]@);
        }
        let f = token_flag(args[i].as_str());
        if f == Some('-') {
            i = i + 1;
            done = true;
        } else if f == Some('g') {
            global = true;
            i = i + 1;
        } else if f == Some('h') {
            hidden = true;
            i = i + 1;
        } else if f == Some('s') {
            shell_format = true;
            i = i + 1;
        } else if f == Some('t') {
            if i + 1 >= args.len() {
                return Err(ParseError::Command(missing_value("-t target")));
            }
            proof {
                assert(a[i + 1] == args@[i + 1]@);
            }
            if f == Some('t') {
                let checked = check(&args[i + 1]);
                if let Err(e) = checked {
                    return Err(ParseError::Target(e));
                }
            }
            target = Some(args[i + 1].clone());
            i = i + 2;
        } else if token_starts_with_dash(args[i].as_str()) {
            return Err(ParseError::Command(unsupported("show-environment", &args[i])));
        } else {
            done = true;
        }
    }
    let scope = match env_scope("show-environment", global, target) {
        Err(e) => {
            return Err(ParseError::Command(e));
        },
        Ok(s) => s,
    };
    if args.len() - i > 1 {
        proof {
            assert(a[i + 1] == args@[i + 1]@);
        }
        return Err(ParseError::Command(leftover("show-environment", &args[i + 1])));
    }
    let name = if i < args.len() {
        proof {
            assert(a[i as int] == args@[i as int]@);
        }
        Some(args[i].clone())
    } else {
        None
    };
    Ok(ShowEnvironmentTokens { scope, name, hidden, shell_format })
}

} // verus!
