use vstd::prelude::*;

use crate::config_parse::{
    checks_targets, parse_error_view, refused, ParseError, ParseErrorView, error_view, opt_view, parse_u16_spec, parse_u16_value, single_flag, starts_with_dash,
    string_from, token_flag, token_starts_with_dash, CommandError, CommandErrorView,
};
use crate::pane_parse::{
    leftover, missing_value, nonempty_list, refusal, trailing_words, trailing_words_spec,
};
use crate::queue_parse::opt_list_view;
use crate::session_leases::{insert_sorted, strictly_sorted};
use crate::source_files::string_views;
use crate::text::str_eq;

verus! {

/// The refusal of the flag `flag` by `command`.
pub fn unsupported(command: &str, flag: &String) -> (e: CommandError)
    ensures
        error_view(e) == CommandErrorView::UnsupportedFlag(command@, flag@),
{
    CommandError::UnsupportedFlag { command: string_from(command), flag: flag.clone() }
}

fn push_view(list: &mut Vec<String>, item: String)
    ensures
        string_views(final(list)@) == string_views(old(list)@).push(item@),
{
    list.push(item);
    proof {
        assert(string_views(final(list)@) =~= string_views(old(list)@).push(item@));
    }
}

fn nonempty_strings(list: Vec<String>) -> (r: Option<Vec<String>>)
    ensures
        opt_list_view(r) == nonempty_list(string_views(list@)),
{
    if list.len() > 0 {
        Some(list)
    } else {
        None
    }
}

// ---------------------------------------------------------------------------
// new-session
// ---------------------------------------------------------------------------

/// The flags of a `new-session` command line read so far.
pub struct NewSessionState {
    pub attach_if_exists: bool,
    pub detach_other_clients: bool,
    pub detached: bool,
    pub environment: Seq<Seq<char>>,
    pub flags: Seq<Seq<char>>,
    pub group_target: Option<Seq<char>>,
    pub kill_other_clients: bool,
    pub print_format: Option<Seq<char>>,
    pub print_session_info: bool,
    pub session_name: Option<Seq<char>>,
    pub working_directory: Option<Seq<char>>,
    pub window_name: Option<Seq<char>>,
    pub cols: Option<u16>,
    pub rows: Option<u16>,
}

pub open spec fn new_session_initial() -> NewSessionState {
    NewSessionState {
        attach_if_exists: false,
        detach_other_clients: false,
        detached: false,
        environment: Seq::empty(),
        flags: Seq::empty(),
        group_target: None,
        kill_other_clients: false,
        print_format: None,
        print_session_info: false,
        session_name: None,
        working_directory: None,
        window_name: None,
        cols: None,
        rows: None,
    }
}

/// The `new-session` flags that take no value.
pub open spec fn new_session_switch(c: char) -> bool {
    c == 'A' || c == 'D' || c == 'd' || c == 'P' || c == 'X'
}

/// The `new-session` flags that take a value other than a number.
pub open spec fn new_session_text_flag(c: char) -> bool {
    c == 'c' || c == 'e' || c == 'f' || c == 'F' || c == 'n' || c == 's' || c == 't'
}

/// What a missing value of a `new-session` flag is called.
pub open spec fn new_session_value_name(c: char) -> Seq<char> {
    if c == 'c' {
        "-c start-directory"@
    } else if c == 'e' {
        "-e name=value"@
    } else if c == 'f' {
        "-f flags"@
    } else if c == 'F' {
        "-F format"@
    } else if c == 'n' {
        "-n window-name"@
    } else if c == 's' {
        "-s session"@
    } else if c == 't' {
        "-t group"@
    } else if c == 'x' {
        "-x value"@
    } else {
        "-y value"@
    }
}

pub open spec fn new_session_set_switch(st: NewSessionState, c: char) -> NewSessionState {
    if c == 'A' {
        NewSessionState { attach_if_exists: true, ..st }
    } else if c == 'D' {
        NewSessionState { detach_other_clients: true, ..st }
    } else if c == 'd' {
        NewSessionState { detached: true, ..st }
    } else if c == 'P' {
        NewSessionState { print_session_info: true, ..st }
    } else {
        NewSessionState { kill_other_clients: true, ..st }
    }
}

pub open spec fn new_session_set_text(st: NewSessionState, c: char, v: Seq<char>) -> NewSessionState {
    if c == 'c' {
        NewSessionState { working_directory: Some(v), ..st }
    } else if c == 'e' {
        NewSessionState { environment: st.environment.push(v), ..st }
    } else if c == 'f' {
        NewSessionState { flags: st.flags.push(v), ..st }
    } else if c == 'F' {
        NewSessionState { print_format: Some(v), ..st }
    } else if c == 'n' {
        NewSessionState { window_name: Some(v), ..st }
    } else if c == 's' {
        NewSessionState { session_name: Some(v), ..st }
    } else {
        NewSessionState { group_target: Some(v), ..st }
    }
}

/// The flags of a `new-session` command line from token `i` on, and where
/// the command begins: after `--`, or at the first word that does not start
/// with `-`. Any other word that starts with `-` is refused.
pub open spec fn new_session_loop<E>(
    args: Seq<Seq<char>>,
    i: int,
    chk: spec_fn(Seq<char>) -> Result<(), E>,
    st: NewSessionState,
) -> Result<(NewSessionState, int), ParseErrorView<E>>
    decreases args.len() - i,
{
    if i < 0 || i >= args.len() {
        Ok((st, i))
    } else {
        let f = single_flag(args[i]);
        if f is Some && new_session_switch(f->0) {
            new_session_loop(args, i + 1, chk, new_session_set_switch(st, f->0))
        } else if f is Some && (new_session_text_flag(f->0) || f->0 == 'x' || f->0 == 'y') {
            let c = f->0;
            if i + 1 >= args.len() {
                Err(refused(CommandErrorView::MissingArgument(new_session_value_name(c))))
            } else if (f == Some('s') || f == Some('t')) && chk(args[i + 1]) is Err {
                Err(ParseErrorView::Target(chk(args[i + 1])->Err_0))
            } else if c == 'x' || c == 'y' {
                match parse_u16_spec(args[i + 1]) {
                    None => Err(refused(CommandErrorView::InvalidNumber("new-session"@, seq!['-', c], args[i + 1]))),
                    Some(v) => new_session_loop(
                        args,
                        i + 2,
                        chk,
                        if c == 'x' {
                            NewSessionState { cols: Some(v), ..st }
                        } else {
                            NewSessionState { rows: Some(v), ..st }
                        },
                    ),
                }
            } else {
                new_session_loop(args, i + 2, chk, new_session_set_text(st, c, args[i + 1]))
            }
        } else if f == Some('-') {
            Ok((st, i + 1))
        } else if starts_with_dash(args[i]) {
            Err(refused(CommandErrorView::UnsupportedFlag("new-session"@, args[i])))
        } else {
            Ok((st, i))
        }
    }
}

/// What a `new-session` command line says. The session name and group
/// target are returned as written; a size given by only one of `-x` and `-y`
/// leaves the other to the caller's default.
pub struct NewSessionTokens {
    pub detached: bool,
    pub cols: Option<u16>,
    pub rows: Option<u16>,
    pub environment: Option<Vec<String>>,
    pub session_name: Option<String>,
    pub working_directory: Option<String>,
    pub group_target: Option<String>,
    pub attach_if_exists: bool,
    pub detach_other_clients: bool,
    pub kill_other_clients: bool,
    pub flags: Option<Vec<String>>,
    pub window_name: Option<String>,
    pub print_session_info: bool,
    pub print_format: Option<String>,
    pub command: Option<Vec<String>>,
}

pub struct NewSessionTokensView {
    pub detached: bool,
    pub cols: Option<u16>,
    pub rows: Option<u16>,
    pub environment: Option<Seq<Seq<char>>>,
    pub session_name: Option<Seq<char>>,
    pub working_directory: Option<Seq<char>>,
    pub group_target: Option<Seq<char>>,
    pub attach_if_exists: bool,
    pub detach_other_clients: bool,
    pub kill_other_clients: bool,
    pub flags: Option<Seq<Seq<char>>>,
    pub window_name: Option<Seq<char>>,
    pub print_session_info: bool,
    pub print_format: Option<Seq<char>>,
    pub command: Option<Seq<Seq<char>>>,
}

impl NewSessionTokens {
    pub open spec fn view(&self) -> NewSessionTokensView {
        NewSessionTokensView {
            detached: self.detached,
            cols: self.cols,
            rows: self.rows,
            environment: opt_list_view(self.environment),
            session_name: opt_view(self.session_name),
            working_directory: opt_view(self.working_directory),
            group_target: opt_view(self.group_target),
            attach_if_exists: self.attach_if_exists,
            detach_other_clients: self.detach_other_clients,
            kill_other_clients: self.kill_other_clients,
            flags: opt_list_view(self.flags),
            window_name: opt_view(self.window_name),
            print_session_info: self.print_session_info,
            print_format: opt_view(self.print_format),
            command: opt_list_view(self.command),
        }
    }
}

/// A `new-session` command line read. A group target (`-t`) refuses a
/// window name or a command; `-X` implies `-D`.
pub open spec fn new_session_spec<E>(
    args: Seq<Seq<char>>,
    chk: spec_fn(Seq<char>) -> Result<(), E>,
) -> Result<NewSessionTokensView, ParseErrorView<E>> {
    match new_session_loop(args, 0, chk, new_session_initial()) {
        Err(e) => Err(e),
        Ok((st, i)) => if st.group_target is Some && (st.window_name is Some
            || trailing_words_spec(args, i) is Some) {
            Err(refused(CommandErrorView::Refused("command or window name given with target"@)))
        } else {
            Ok(
                NewSessionTokensView {
                    detached: st.detached,
                    cols: st.cols,
                    rows: st.rows,
                    environment: nonempty_list(st.environment),
                    session_name: st.session_name,
                    working_directory: st.working_directory,
                    group_target: st.group_target,
                    attach_if_exists: st.attach_if_exists,
                    detach_other_clients: st.detach_other_clients || st.kill_other_clients,
                    kill_other_clients: st.kill_other_clients,
                    flags: nonempty_list(st.flags),
                    window_name: st.window_name,
                    print_session_info: st.print_session_info,
                    print_format: st.print_format,
                    command: trailing_words_spec(args, i),
                },
            )
        },
    }
}

fn new_session_missing(c: char) -> (e: CommandError)
    ensures
        error_view(e) == CommandErrorView::MissingArgument(new_session_value_name(c)),
{
    if c == 'c' {
        missing_value("-c start-directory")
    } else if c == 'e' {
        missing_value("-e name=value")
    } else if c == 'f' {
        missing_value("-f flags")
    } else if c == 'F' {
        missing_value("-F format")
    } else if c == 'n' {
        missing_value("-n window-name")
    } else if c == 's' {
        missing_value("-s session")
    } else if c == 't' {
        missing_value("-t group")
    } else if c == 'x' {
        missing_value("-x value")
    } else {
        missing_value("-y value")
    }
}

fn flag_name(c: char) -> (s: String)
    ensures
        s@ == seq!['-', c],
{
    let mut s = String::new();
    crate::text::string_push(&mut s, '-');
    crate::text::string_push(&mut s, c);
    proof {
        assert(s@ =~= seq!['-', c]);
    }
    s
}

/// Reads a `new-session` command line. `check` checks the session words given
/// to `-s` and `-t` where they are given, before the flag that follows is read.
pub fn parse_new_session_tokens<E, F: Fn(&String) -> Result<(), E>>(args: &[String], check: &F) -> (r: Result<
    NewSessionTokens,
    ParseError<E>,
>)
    requires
        forall|s: &String| check.requires((s,)),
    ensures
        forall|chk: spec_fn(Seq<char>) -> Result<(), E>|
            checks_targets(*check, chk) ==> match r {
                Ok(t) => new_session_spec(string_views(args@), chk) == Ok::<NewSessionTokensView, ParseErrorView<E>>(t.view()),
                Err(e) => new_session_spec(string_views(args@), chk) == Err::<NewSessionTokensView, ParseErrorView<E>>(
                    parse_error_view(e),
                ),
            },
{
    let ghost a = string_views(args@);
    let mut attach_if_exists = false;
    let mut detach_other_clients = false;
    let mut detached = false;
    let mut environment: Vec<String> = Vec::new();
    let mut flags: Vec<String> = Vec::new();
    let mut group_target: Option<String> = None;
    let mut kill_other_clients = false;
    let mut print_format: Option<String> = None;
    let mut print_session_info = false;
    let mut session_name: Option<String> = None;
    let mut working_directory: Option<String> = None;
    let mut window_name: Option<String> = None;
    let mut cols: Option<u16> = None;
    let mut rows: Option<u16> = None;
    let mut i: usize = 0;
    let mut done = false;
    proof {
        assert(string_views(environment@) =~= Seq::<Seq<char>>::empty());
        assert(string_views(flags@) =~= Seq::<Seq<char>>::empty());
    }
    while i < args.len() && !done
        invariant
            i <= args@.len(),
            a == string_views(args@),
            forall|s: &String| check.requires((s,)),
            forall|chk: spec_fn(Seq<char>) -> Result<(), E>|
                checks_targets(*check, chk) ==> {
                    &&& !done ==> new_session_loop(a, 0, chk, new_session_initial()) == new_session_loop(
                        a,
                        i as int,
                        chk,
                        NewSessionState {
                            attach_if_exists,
                            detach_other_clients,
                            detached,
                            environment: string_views(environment@),
                            flags: string_views(flags@),
                            group_target: opt_view(group_target),
                            kill_other_clients,
                            print_format: opt_view(print_format),
                            print_session_info,
                            session_name: opt_view(session_name),
                            working_directory: opt_view(working_directory),
                            window_name: opt_view(window_name),
                            cols,
                            rows,
                        },
                    )
                    &&& done ==> new_session_loop(a, 0, chk, new_session_initial()) == Ok::<
                        (NewSessionState, int),
                        ParseErrorView<E>,
                    >(
                        (
                            NewSessionState {
                                attach_if_exists,
                                detach_other_clients,
                                detached,
                                environment: string_views(environment@),
                                flags: string_views(flags@),
                                group_target: opt_view(group_target),
                                kill_other_clients,
                                print_format: opt_view(print_format),
                                print_session_info,
                                session_name: opt_view(session_name),
                                working_directory: opt_view(working_directory),
                                window_name: opt_view(window_name),
                                cols,
                                rows,
                            },
                            i as int,
                        ),
                    )
                },
        decreases args.len() - i + (if done { 0int } else { 1int }),
    {
        proof {
            assert(a[i as int] == args@[i as int]@);
        }
        let f = token_flag(args[i].as_str());
        let c = match f {
            Some(c) => c,
            None => ' ',
        };
        if f.is_some() && (c == 'A' || c == 'D' || c == 'd' || c == 'P' || c == 'X') {
            if c == 'A' {
                attach_if_exists = true;
            } else if c == 'D' {
                detach_other_clients = true;
            } else if c == 'd' {
                detached = true;
            } else if c == 'P' {
                print_session_info = true;
            } else {
                kill_other_clients = true;
            }
            i = i + 1;
        } else if f.is_some() && (c == 'c' || c == 'e' || c == 'f' || c == 'F' || c == 'n' || c
            == 's' || c == 't' || c == 'x' || c == 'y') {
            if i + 1 >= args.len() {
                return Err(ParseError::Command(new_session_missing(c)));
            }
            proof {
                assert(a[i + 1] == args@[i + 1]@);
            }
            if f == Some('s') || f == Some('t') {
                let checked = check(&args[i + 1]);
                if let Err(e) = checked {
                    return Err(ParseError::Target(e));
                }
            }
            if c == 'x' || c == 'y' {
                match parse_u16_value(args[i + 1].as_str()) {
                    None => {
                        return Err(ParseError::Command(CommandError::InvalidNumber {
                                command: string_from("new-session"),
                                flag: flag_name(c),
                                value: args[i + 1].clone(),
                            }));
                    },
                    Some(v) => {
                        if c == 'x' {
                            cols = Some(v);
                        } else {
                            rows = Some(v);
                        }
                    },
                }
            } else {
                let v = args[i + 1].clone();
                if c == 'c' {
                    working_directory = Some(v);
                } else if c == 'e' {
                    push_view(&mut environment, v);
                } else if c == 'f' {
                    push_view(&mut flags, v);
                } else if c == 'F' {
                    print_format = Some(v);
                } else if c == 'n' {
                    window_name = Some(v);
                } else if c == 's' {
                    session_name = Some(v);
                } else {
                    group_target = Some(v);
                }
            }
            i = i + 2;
        } else if f == Some('-') {
            i = i + 1;
            done = true;
        } else if token_starts_with_dash(args[i].as_str()) {
            return Err(ParseError::Command(unsupported("new-session", &args[i])));
        } else {
            done = true;
        }
    }
    let command = trailing_words(args, i);
    if group_target.is_some() && (window_name.is_some() || command.is_some()) {
        return Err(ParseError::Command(refusal("command or window name given with target")));
    }
    Ok(
        NewSessionTokens {
            detached,
            cols,
            rows,
            environment: nonempty_strings(environment),
            session_name,
            working_directory,
            group_target,
            attach_if_exists,
            detach_other_clients: detach_other_clients || kill_other_clients,
            kill_other_clients,
            flags: nonempty_strings(flags),
            window_name,
            print_session_info,
            print_format,
            command,
        },
    )
}


// ---------------------------------------------------------------------------
// attach-session
// ---------------------------------------------------------------------------

/// The flags of an `attach-session` command line read so far.
pub struct AttachSessionState {
    pub target: Option<Seq<char>>,
    pub working_directory: Option<Seq<char>>,
    pub detach_other_clients: bool,
    pub kill_other_clients: bool,
    pub read_only: bool,
    pub skip_environment_update: bool,
    pub flags: Seq<Seq<char>>,
}

pub open spec fn attach_session_initial() -> AttachSessionState {
    AttachSessionState {
        target: None,
        working_directory: None,
        detach_other_clients: false,
        kill_other_clients: false,
        read_only: false,
        skip_environment_update: false,
        flags: Seq::empty(),
    }
}

/// An `attach-session` command line from token `i` on: every word is a flag;
/// another word that starts with `-` is an unsupported flag, and any other
/// word is refused.
pub open spec fn attach_session_loop<E>(
    args: Seq<Seq<char>>,
    i: int,
    chk: spec_fn(Seq<char>) -> Result<(), E>,
    st: AttachSessionState) -> Result<
    AttachSessionState,
    ParseErrorView<E>,
>
    decreases args.len() - i,
{
    if i < 0 || i >= args.len() {
        Ok(st)
    } else {
        let f = single_flag(args[i]);
        if f == Some('d') {
            attach_session_loop(args, i + 1, chk, AttachSessionState { detach_other_clients: true, ..st })
        } else if f == Some('E') {
            attach_session_loop(
                args,
                i + 1,
                chk,
                AttachSessionState { skip_environment_update: true, ..st },
            )
        } else if f == Some('r') {
            attach_session_loop(args, i + 1, chk, AttachSessionState { read_only: true, ..st })
        } else if f == Some('x') {
            attach_session_loop(args, i + 1, chk, AttachSessionState { kill_other_clients: true, ..st })
        } else if f == Some('c') || f == Some('f') || f == Some('t') {
            if i + 1 >= args.len() {
                Err(refused(CommandErrorView::MissingArgument(
                        if f == Some('c') {
                            "-c working-directory"@
                        } else if f == Some('f') {
                            "-f flags"@
                        } else {
                            "-t target"@
                        },
                    )))
            } else if (f == Some('t')) && chk(args[i + 1]) is Err {
                Err(ParseErrorView::Target(chk(args[i + 1])->Err_0))
            } else {
                let v = args[i + 1];
                attach_session_loop(
                    args,
                    i + 2,
                    chk,
                    if f == Some('c') {
                        AttachSessionState { working_directory: Some(v), ..st }
                    } else if f == Some('f') {
                        AttachSessionState { flags: st.flags.push(v), ..st }
                    } else {
                        AttachSessionState { target: Some(v), ..st }
                    },
                )
            }
        } else if starts_with_dash(args[i]) {
            Err(refused(CommandErrorView::UnsupportedFlag("attach-session"@, args[i])))
        } else {
            Err(refused(CommandErrorView::UnexpectedArgument("attach-session"@, args[i])))
        }
    }
}

/// What an `attach-session` command line says. The target is returned as
/// written; `-x` implies `-d`.
pub struct AttachSessionTokens {
    pub target: Option<String>,
    pub detach_other_clients: bool,
    pub kill_other_clients: bool,
    pub read_only: bool,
    pub skip_environment_update: bool,
    pub flags: Option<Vec<String>>,
    pub working_directory: Option<String>,
}

pub struct AttachSessionTokensView {
    pub target: Option<Seq<char>>,
    pub detach_other_clients: bool,
    pub kill_other_clients: bool,
    pub read_only: bool,
    pub skip_environment_update: bool,
    pub flags: Option<Seq<Seq<char>>>,
    pub working_directory: Option<Seq<char>>,
}

impl AttachSessionTokens {
    pub open spec fn view(&self) -> AttachSessionTokensView {
        AttachSessionTokensView {
            target: opt_view(self.target),
            detach_other_clients: self.detach_other_clients,
            kill_other_clients: self.kill_other_clients,
            read_only: self.read_only,
            skip_environment_update: self.skip_environment_update,
            flags: opt_list_view(self.flags),
            working_directory: opt_view(self.working_directory),
        }
    }
}

/// An `attach-session` command line read.
pub open spec fn attach_session_spec<E>(
    args: Seq<Seq<char>>,
    chk: spec_fn(Seq<char>) -> Result<(), E>,
) -> Result<AttachSessionTokensView, ParseErrorView<E>> {
    match attach_session_loop(args, 0, chk, attach_session_initial()) {
        Err(e) => Err(e),
        Ok(st) => Ok(
            AttachSessionTokensView {
                target: st.target,
                detach_other_clients: st.detach_other_clients || st.kill_other_clients,
                kill_other_clients: st.kill_other_clients,
                read_only: st.read_only,
                skip_environment_update: st.skip_environment_update,
                flags: nonempty_list(st.flags),
                working_directory: st.working_directory,
            },
        ),
    }
}

/// Reads an `attach-session` command line. `check` checks each target
/// word where it is given, before the flag that follows it is read.
pub fn parse_attach_session_tokens<E, F: Fn(&String) -> Result<(), E>>(args: &[String], check: &F) -> (r: Result<
    AttachSessionTokens,
    ParseError<E>,
>)
    requires
        forall|s: &String| check.requires((s,)),
    ensures
        forall|chk: spec_fn(Seq<char>) -> Result<(), E>|
            checks_targets(*check, chk) ==> match r {
                Ok(t) => attach_session_spec(string_views(args@), chk) == Ok::<AttachSessionTokensView, ParseErrorView<E>>(t.view()),
                Err(e) => attach_session_spec(string_views(args@), chk) == Err::<AttachSessionTokensView, ParseErrorView<E>>(
                    parse_error_view(e),
                ),
            },
{
    let ghost a = string_views(args@);
    let mut target: Option<String> = None;
    let mut working_directory: Option<String> = None;
    let mut detach_other_clients = false;
    let mut kill_other_clients = false;
    let mut read_only = false;
    let mut skip_environment_update = false;
    let mut flags: Vec<String> = Vec::new();
    let mut i: usize = 0;
    proof {
        assert(string_views(flags@) =~= Seq::<Seq<char>>::empty());
    }
    while i < args.len()
        invariant
            i <= args@.len(),
            a == string_views(args@),
            forall|s: &String| check.requires((s,)),
            forall|chk: spec_fn(Seq<char>) -> Result<(), E>|
                checks_targets(*check, chk) ==> {
                    &&& attach_session_loop(a, 0, chk, attach_session_initial()) == attach_session_loop(
                        a,
                        i as int,
                        chk,
                        AttachSessionState {
                            target: opt_view(target),
                            working_directory: opt_view(working_directory),
                            detach_other_clients,
                            kill_other_clients,
                            read_only,
                            skip_environment_update,
                            flags: string_views(flags@),
                        },
                    )
                },
        decreases args.len() - i,
    {
        proof {
            assert(a[i as int] == args@[i as int]@);
        }
        let f = token_flag(args[i].as_str());
        if f == Some('d') {
            detach_other_clients = true;
            i = i + 1;
        } else if f == Some('E') {
            skip_environment_update = true;
            i = i + 1;
        } else if f == Some('r') {
            read_only = true;
            i = i + 1;
        } else if f == Some('x') {
            kill_other_clients = true;
            i = i + 1;
        } else if f == Some('c') || f == Some('f') || f == Some('t') {
            if i + 1 >= args.len() {
                return Err(ParseError::Command(if f == Some('c') {
                        missing_value("-c working-directory")
                    } else if f == Some('f') {
                        missing_value("-f flags")
                    } else {
                        missing_value("-t target")
                    }));
            }
            proof {
                assert(a[i + 1] == args@[i + 1]@);
            }
            if f == Some('t') {
                let checked = check(&args[i + 1]);
                if let Err(e) = checked {
                    return Err(ParseError::Target(e));
                }
            }
            let v = args[i + 1].clone();
            if f == Some('c') {
                working_directory = Some(v);
            } else if f == Some('f') {
                push_view(&mut flags, v);
            } else {
                target = Some(v);
            }
            i = i + 2;
        } else if token_starts_with_dash(args[i].as_str()) {
            return Err(ParseError::Command(unsupported("attach-session", &args[i])));
        } else {
            return Err(ParseError::Command(leftover("attach-session", &args[i])));
        }
    }
    Ok(
        AttachSessionTokens {
            target,
            detach_other_clients: detach_other_clients || kill_other_clients,
            kill_other_clients,
            read_only,
            skip_environment_update,
            flags: nonempty_strings(flags),
            working_directory,
        },
    )
}

// ---------------------------------------------------------------------------
// kill-session and the commands that name one session
// ---------------------------------------------------------------------------

/// Whether `command` takes `-a` (only alerted windows).
pub open spec fn takes_alerts_flag(command: Seq<char>) -> bool {
    command == "next-window"@ || command == "previous-window"@
}

/// A command line of `command` that names one session, from token `i` on:
/// the raw `-t` target and whether `-a` was given (by `next-window` and
/// `previous-window` only; `-C` too when `command` is `kill-session`, which
/// also takes `-a`). Any other word is refused.
pub open spec fn session_flags_loop<E>(
    args: Seq<Seq<char>>,
    i: int,
    chk: spec_fn(Seq<char>) -> Result<(), E>,
    command: Seq<char>,
    target: Option<Seq<char>>,
    all: bool,
    clear: bool,
) -> Result<(Option<Seq<char>>, bool, bool), ParseErrorView<E>>
    decreases args.len() - i,
{
    if i < 0 || i >= args.len() {
        Ok((target, all, clear))
    } else {
        let f = single_flag(args[i]);
        let kill = command == "kill-session"@;
        if f == Some('a') && (kill || takes_alerts_flag(command)) {
            session_flags_loop(args, i + 1, chk, command, target, true, clear)
        } else if f == Some('C') && kill {
            session_flags_loop(args, i + 1, chk, command, target, all, true)
        } else if f == Some('t') {
            if i + 1 >= args.len() {
                Err(refused(CommandErrorView::MissingArgument("-t target"@)))
            } else if chk(args[i + 1]) is Err {
                Err(ParseErrorView::Target(chk(args[i + 1])->Err_0))
            } else {
                session_flags_loop(args, i + 2, chk, command, Some(args[i + 1]), all, clear)
            }
        } else if starts_with_dash(args[i]) {
            Err(refused(CommandErrorView::UnsupportedFlag(command, args[i])))
        } else {
            Err(refused(CommandErrorView::UnexpectedArgument(command, args[i])))
        }
    }
}

/// Reads the flags of a command line of `command` that names one session
/// (`kill-session`, `has-session`, `next-window`, `previous-window`,
/// `last-window`, `switch-client`, `lock-session`, ...): the raw target, `-a`
/// and (for `kill-session`) `-C`. `check` checks the target word where it is
/// given.
pub fn parse_session_flags<E, F: Fn(&String) -> Result<(), E>>(
    args: &[String],
    command: &str,
    check: &F,
) -> (r: Result<(Option<String>, bool, bool), ParseError<E>>)
    requires
        forall|s: &String| check.requires((s,)),
    ensures
        forall|chk: spec_fn(Seq<char>) -> Result<(), E>|
            checks_targets(*check, chk) ==> match r {
                Ok((t, all, clear)) => session_flags_loop(
                    string_views(args@),
                    0,
                    chk,
                    command@,
                    None,
                    false,
                    false,
                ) == Ok::<(Option<Seq<char>>, bool, bool), ParseErrorView<E>>(
                    (opt_view(t), all, clear),
                ),
                Err(e) => session_flags_loop(string_views(args@), 0, chk, command@, None, false, false)
                    == Err::<(Option<Seq<char>>, bool, bool), ParseErrorView<E>>(parse_error_view(e)),
            },
{
    let ghost a = string_views(args@);
    let kill = str_eq(command, "kill-session");
    let alerts = str_eq(command, "next-window") || str_eq(command, "previous-window");
    let mut target: Option<String> = None;
    let mut all = false;
    let mut clear = false;
    let mut i: usize = 0;
    while i < args.len()
        invariant
            i <= args@.len(),
            a == string_views(args@),
            kill == (command@ == "kill-session"@),
            alerts == takes_alerts_flag(command@),
            forall|s: &String| check.requires((s,)),
            forall|chk: spec_fn(Seq<char>) -> Result<(), E>|
                checks_targets(*check, chk) ==> session_flags_loop(
                    a,
                    0,
                    chk,
                    command@,
                    None,
                    false,
                    false,
                ) == session_flags_loop(a, i as int, chk, command@, opt_view(target), all, clear),
        decreases args.len() - i,
    {
        proof {
            assert(a[i as int] == args@[i as int]@);
        }
        let f = token_flag(args[i].as_str());
        if f == Some('a') && (kill || alerts) {
            all = true;
            i = i + 1;
        } else if f == Some('C') && kill {
            clear = true;
            i = i + 1;
        } else if f == Some('t') {
            if i + 1 >= args.len() {
                return Err(ParseError::Command(missing_value("-t target")));
            }
            proof {
                assert(a[i + 1] == args@[i + 1]@);
            }
            let checked = check(&args[i + 1]);
            if let Err(e) = checked {
                return Err(ParseError::Target(e));
            }
            target = Some(args[i + 1].clone());
            i = i + 2;
        } else if token_starts_with_dash(args[i].as_str()) {
            return Err(
                ParseError::Command(
                    CommandError::UnsupportedFlag {
                        command: string_from(command),
                        flag: args[i].clone(),
                    },
                ),
            );
        } else {
            return Err(
                ParseError::Command(
                    CommandError::UnexpectedArgument {
                        command: string_from(command),
                        argument: args[i].clone(),
                    },
                ),
            );
        }
    }
    Ok((target, all, clear))
}

/// What a `kill-session` command line says: the raw target, whether every
/// other session goes (`-a`), and whether alerts are cleared (`-C`). `chk`
/// is the check of a target word.
pub open spec fn kill_session_spec<E>(
    args: Seq<Seq<char>>,
    chk: spec_fn(Seq<char>) -> Result<(), E>,
) -> Result<(Seq<char>, bool, bool), ParseErrorView<E>> {
    match session_flags_loop(args, 0, chk, "kill-session"@, None, false, false) {
        Err(e) => Err(e),
        Ok((target, all, clear)) => match target {
            None => Err(refused(CommandErrorView::MissingArgument("-t target"@))),
            Some(t) => Ok((t, all, clear)),
        },
    }
}

/// Reads a `kill-session` command line; `-t` is required. `check` checks the
/// target word where it is given.
pub fn parse_kill_session_tokens<E, F: Fn(&String) -> Result<(), E>>(args: &[String], check: &F) -> (r:
    Result<(String, bool, bool), ParseError<E>>)
    requires
        forall|s: &String| check.requires((s,)),
    ensures
        forall|chk: spec_fn(Seq<char>) -> Result<(), E>|
            checks_targets(*check, chk) ==> match r {
                Ok((t, all, clear)) => kill_session_spec(string_views(args@), chk) == Ok::<
                    (Seq<char>, bool, bool),
                    ParseErrorView<E>,
                >((t@, all, clear)),
                Err(e) => kill_session_spec(string_views(args@), chk) == Err::<
                    (Seq<char>, bool, bool),
                    ParseErrorView<E>,
                >(parse_error_view(e)),
            },
{
    match parse_session_flags(args, "kill-session", check) {
        Err(e) => Err(e),
        Ok((target, all, clear)) => match target {
            None => Err(ParseError::Command(missing_value("-t target"))),
            Some(t) => Ok((t, all, clear)),
        },
    }
}

// ---------------------------------------------------------------------------
// rename-session
// ---------------------------------------------------------------------------

/// The leading flags of a `rename-session` command line from token `i` on:
/// the raw target and where they end; a target word that `chk` refuses
/// stops them with its error.
pub open spec fn rename_session_loop<E>(
    args: Seq<Seq<char>>,
    i: int,
    chk: spec_fn(Seq<char>) -> Result<(), E>,
    target: Option<Seq<char>>,
) -> Result<(Option<Seq<char>>, int), ParseErrorView<E>>
    decreases args.len() - i,
{
    if i < 0 || i >= args.len() {
        Ok((target, i))
    } else {
        let f = single_flag(args[i]);
        if f == Some('-') {
            Ok((target, i + 1))
        } else if f == Some('t') {
            if i + 1 >= args.len() {
                Err(refused(CommandErrorView::MissingArgument("-t target"@)))
            } else if chk(args[i + 1]) is Err {
                Err(ParseErrorView::Target(chk(args[i + 1])->Err_0))
            } else {
                rename_session_loop(args, i + 2, chk, Some(args[i + 1]))
            }
        } else {
            Ok((target, i))
        }
    }
}

/// A `rename-session` command line read: the raw target and the new name
/// (required, and a session name that `chk` takes), and nothing more.
pub open spec fn rename_session_spec<E>(
    args: Seq<Seq<char>>,
    chk: spec_fn(Seq<char>) -> Result<(), E>,
) -> Result<(Option<Seq<char>>, Seq<char>), ParseErrorView<E>> {
    match rename_session_loop(args, 0, chk, None) {
        Err(e) => Err(e),
        Ok((target, i)) => if i >= args.len() {
            Err(refused(CommandErrorView::MissingArgument("rename-session new-name"@)))
        } else if chk(args[i]) is Err {
            Err(ParseErrorView::Target(chk(args[i])->Err_0))
        } else if i + 1 < args.len() {
            Err(refused(CommandErrorView::UnexpectedArgument("rename-session"@, args[i + 1])))
        } else {
            Ok((target, args[i]))
        },
    }
}

/// Reads a `rename-session` command line. `check` checks the session names
/// (the target and the new name) where they are given.
pub fn parse_rename_session_tokens<E, F: Fn(&String) -> Result<(), E>>(args: &[String], check: &F) -> (r:
    Result<(Option<String>, String), ParseError<E>>)
    requires
        forall|s: &String| check.requires((s,)),
    ensures
        forall|chk: spec_fn(Seq<char>) -> Result<(), E>|
            checks_targets(*check, chk) ==> match r {
                Ok((t, name)) => rename_session_spec(string_views(args@), chk) == Ok::<
                    (Option<Seq<char>>, Seq<char>),
                    ParseErrorView<E>,
                >((opt_view(t), name@)),
                Err(e) => rename_session_spec(string_views(args@), chk) == Err::<
                    (Option<Seq<char>>, Seq<char>),
                    ParseErrorView<E>,
                >(parse_error_view(e)),
            },
{
    let ghost a = string_views(args@);
    let mut target: Option<String> = None;
    let mut i: usize = 0;
    let mut done = false;
    while i < args.len() && !done
        invariant
            i <= args@.len(),
            a == string_views(args@),
            forall|s: &String| check.requires((s,)),
            forall|chk: spec_fn(Seq<char>) -> Result<(), E>|
                checks_targets(*check, chk) ==> {
                    &&& !done ==> rename_session_loop(a, 0, chk, None) == rename_session_loop(
                        a,
                        i as int,
                        chk,
                        opt_view(target),
                    )
                    &&& done ==> rename_session_loop(a, 0, chk, None) == Ok::<
                        (Option<Seq<char>>, int),
                        ParseErrorView<E>,
                    >((opt_view(target), i as int))
                },
        decreases args.len() - i + (if done { 0int } else { 1int }),
    {
        proof {
            assert(a[i as int] == args@[i as int]@);
        }
        let f = token_flag(args[i].as_str());
        if f == Some('-') {
            i = i + 1;
            done = true;
        } else if f == Some('t') {
            if i + 1 >= args.len() {
                return Err(ParseError::Command(missing_value("-t target")));
            }
            proof {
                assert(a[i + 1] == args@[i + 1]@);
            }
            let checked = check(&args[i + 1]);
            if let Err(e) = checked {
                return Err(ParseError::Target(e));
            }
            target = Some(args[i + 1].clone());
            i = i + 2;
        } else {
            done = true;
        }
    }
    if i >= args.len() {
        return Err(ParseError::Command(missing_value("rename-session new-name")));
    }
    proof {
        assert(a[i as int] == args@[i as int]@);
    }
    let checked = check(&args[i]);
    if let Err(e) = checked {
        return Err(ParseError::Target(e));
    }
    if args.len() - i > 1 {
        proof {
            assert(a[i + 1] == args@[i + 1]@);
        }
        return Err(ParseError::Command(leftover("rename-session", &args[i + 1])));
    }
    Ok((target, args[i].clone()))
}


// ---------------------------------------------------------------------------
// The sessions that kill-session removes
// ---------------------------------------------------------------------------

/// No name occurs twice.
pub open spec fn distinct_names(names: Seq<Seq<char>>) -> bool {
    forall|i: int, j: int| 0 <= i < j < names.len() ==> names[i] != names[j]
}

/// The sessions that `kill-session` removes, given the names of the
/// sessions in the store and the (existing) target: the target alone, or
/// with `-a` every other session, in name order.
pub fn kill_session_removals(names: &Vec<String>, target: &String, kill_all_except: bool) -> (r: Vec<
    String,
>)
    requires
        distinct_names(string_views(names@)),
    ensures
        !kill_all_except ==> string_views(r@) == seq![target@],
        kill_all_except ==> {
            &&& strictly_sorted(string_views(r@))
            &&& string_views(r@).to_set() == string_views(names@).to_set().remove(target@)
        },
{
    if !kill_all_except {
        let r = vec![target.clone()];
        proof {
            assert(string_views(r@) =~= seq![target@]);
        }
        return r;
    }
    let ghost all = string_views(names@);
    let mut out: Vec<String> = Vec::new();
    let mut k: usize = 0;
    proof {
        assert(string_views(out@) =~= Seq::<Seq<char>>::empty());
        assert(string_views(out@).to_set() =~= Set::<Seq<char>>::empty());
    }
    while k < names.len()
        invariant
            k <= names@.len(),
            all == string_views(names@),
            distinct_names(all),
            strictly_sorted(string_views(out@)),
            forall|x: Seq<char>| #[trigger]
                string_views(out@).to_set().contains(x) <==> (x != target@ && exists|j: int|
                    0 <= j < k && all[j] == x),
        decreases names.len() - k,
    {
        proof {
            assert(all[k as int] == names@[k as int]@);
        }
        if !crate::text::str_eq(names[k].as_str(), target.as_str()) {
            let ghost before = string_views(out@);
            proof {
                if before.contains(all[k as int]) {
                    assert(before.to_set().contains(all[k as int]));
                    let j = choose|j: int| 0 <= j < k && all[j] == all[k as int];
                    assert(j < k);
                }
            }
            insert_sorted(&mut out, names[k].clone());
            proof {
                assert forall|x: Seq<char>| #[trigger]
                    string_views(out@).to_set().contains(x) <==> (x != target@ && exists|j: int|
                        0 <= j < k + 1 && all[j] == x) by {
                    if x == all[k as int] {
                        assert(0 <= k < k + 1 && all[k as int] == x);
                    }
                    if exists|j: int| 0 <= j < k + 1 && all[j] == x {
                        let j = choose|j: int| 0 <= j < k + 1 && all[j] == x;
                        if j < k {
                            assert(exists|j: int| 0 <= j < k && all[j] == x);
                        }
                    }
                    if exists|j: int| 0 <= j < k && all[j] == x {
                        let j = choose|j: int| 0 <= j < k && all[j] == x;
                        assert(0 <= j < k + 1 && all[j] == x);
                    }
                }
            }
        } else {
            proof {
                assert forall|x: Seq<char>| #[trigger]
                    string_views(out@).to_set().contains(x) <==> (x != target@ && exists|j: int|
                        0 <= j < k + 1 && all[j] == x) by {
                    if x != target@ && exists|j: int| 0 <= j < k + 1 && all[j] == x {
                        let j = choose|j: int| 0 <= j < k + 1 && all[j] == x;
                        assert(j != k);
                        assert(exists|j: int| 0 <= j < k && all[j] == x);
                    }
                    if exists|j: int| 0 <= j < k && all[j] == x {
                        let j = choose|j: int| 0 <= j < k && all[j] == x;
                        assert(0 <= j < k + 1 && all[j] == x);
                    }
                }
            }
        }
        k = k + 1;
    }
    proof {
        assert forall|x: Seq<char>|
            string_views(out@).to_set().contains(x) <==> all.to_set().remove(target@).contains(x) by {
            if all.contains(x) {
                let j = choose|j: int| 0 <= j < all.len() && all[j] == x;
                assert(exists|j: int| 0 <= j < k && all[j] == x);
            }
            if exists|j: int| 0 <= j < k && all[j] == x {
                let j = choose|j: int| 0 <= j < k && all[j] == x;
                assert(all.contains(x));
            }
        }
        assert(string_views(out@).to_set() =~= all.to_set().remove(target@));
    }
    out
}


// ---------------------------------------------------------------------------
// What an extended new-session request does
// ---------------------------------------------------------------------------

/// What an extended `new-session` request gives: a group target, a first
/// window name, a command and a session name (each given or not), and its
/// flags.
#[derive(Debug, Clone, Copy, PartialEq, Eq, Structural)]
pub struct NewSessionRequestShape {
    pub has_group_target: bool,
    pub has_window_name: bool,
    pub has_command: bool,
    pub has_session_name: bool,
    pub attach_if_exists: bool,
    pub detached: bool,
    pub detach_other_clients: bool,
    pub kill_other_clients: bool,
}

/// What the server does with an extended `new-session` request.
#[derive(Debug, Clone, Copy, PartialEq, Eq, Structural)]
pub enum NewSessionDecision {
    /// A command or a window name was given with a group target: refused with
    /// "command or window name given with target".
    RefuseNamedWindowInGroup,
    /// The named session exists and `-A` was given: the client joins it. When
    /// `detach_others`, the other clients attached to it are detached, and
    /// killed as well when `kill_others`.
    AttachExisting { detach_others: bool, kill_others: bool },
    /// A new session is made.
    Create,
}

/// The decision on an extended `new-session` request, given whether the
/// session it names exists. That answer is read only where the request asks
/// to join an existing session (`-A` with a session name and no group target).
pub open spec fn new_session_decision_spec(
    request: NewSessionRequestShape,
    named_session_exists: bool,
) -> NewSessionDecision {
    if request.has_group_target && (request.has_window_name || request.has_command) {
        NewSessionDecision::RefuseNamedWindowInGroup
    } else if request.attach_if_exists && !request.has_group_target && request.has_session_name
        && named_session_exists {
        NewSessionDecision::AttachExisting {
            detach_others: !request.detached && (request.detach_other_clients
                || request.kill_other_clients),
            kill_others: !request.detached && (request.detach_other_clients
                || request.kill_other_clients) && request.kill_other_clients,
        }
    } else {
        NewSessionDecision::Create
    }
}

/// Whether deciding on the request needs to know if its named session exists.
pub fn new_session_needs_lookup(request: NewSessionRequestShape) -> (r: bool)
    ensures
        r == (!(request.has_group_target && (request.has_window_name || request.has_command))
            && request.attach_if_exists && !request.has_group_target && request.has_session_name),
        !r ==> forall|a: bool, b: bool|
            new_session_decision_spec(request, a) == new_session_decision_spec(request, b),
{
    !(request.has_group_target && (request.has_window_name || request.has_command))
        && request.attach_if_exists && !request.has_group_target && request.has_session_name
}

/// Decides an extended `new-session` request; `named_session_exists` says
/// whether the session it names exists (see `new_session_needs_lookup`).
pub fn new_session_decision(request: NewSessionRequestShape, named_session_exists: bool) -> (r:
    NewSessionDecision)
    ensures
        r == new_session_decision_spec(request, named_session_exists),
{
    if request.has_group_target && (request.has_window_name || request.has_command) {
        NewSessionDecision::RefuseNamedWindowInGroup
    } else if request.attach_if_exists && !request.has_group_target && request.has_session_name
        && named_session_exists {
        let detach_others = !request.detached && (request.detach_other_clients
            || request.kill_other_clients);
        NewSessionDecision::AttachExisting {
            detach_others,
            kill_others: detach_others && request.kill_other_clients,
        }
    } else {
        NewSessionDecision::Create
    }
}

} // verus!
