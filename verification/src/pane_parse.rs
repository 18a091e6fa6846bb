use vstd::prelude::*;

use crate::config_parse::{
    checks_targets, error_view, opt_view, parse_error_view, refused, single_flag, string_from,
    token_flag, CommandError, CommandErrorView, ParseError, ParseErrorView,
};
use crate::queue_parse::opt_list_view;
use crate::source_files::string_views;

verus! {

/// The refusal of a command line missing the value described by `what`.
pub fn missing_value(what: &str) -> (e: CommandError)
    ensures
        error_view(e) == CommandErrorView::MissingArgument(what@),
{
    CommandError::MissingArgument { what: string_from(what) }
}

/// The refusal of a command line that breaks a rule, with its message.
pub fn refusal(message: &str) -> (e: CommandError)
    ensures
        error_view(e) == CommandErrorView::Refused(message@),
{
    CommandError::Refused(string_from(message))
}

/// The refusal of `argument`, left over on the command line of `command`.
pub fn leftover(command: &str, argument: &String) -> (e: CommandError)
    ensures
        error_view(e) == CommandErrorView::UnexpectedArgument(command@, argument@),
{
    CommandError::UnexpectedArgument { command: string_from(command), argument: argument.clone() }
}

// ---------------------------------------------------------------------------
// select-pane
// ---------------------------------------------------------------------------

/// A direction in which `select-pane` moves.
#[derive(Debug, Clone, Copy, PartialEq, Eq, Structural)]
pub enum SelectPaneDirection {
    Up,
    Down,
    Left,
    Right,
}

/// The direction of the flag character `c`, if it names one.
pub open spec fn select_direction(c: char) -> Option<SelectPaneDirection> {
    if c == 'U' {
        Some(SelectPaneDirection::Up)
    } else if c == 'D' {
        Some(SelectPaneDirection::Down)
    } else if c == 'L' {
        Some(SelectPaneDirection::Left)
    } else if c == 'R' {
        Some(SelectPaneDirection::Right)
    } else {
        None
    }
}

fn select_direction_exec(c: char) -> (r: Option<SelectPaneDirection>)
    ensures
        r == select_direction(c),
{
    if c == 'U' {
        Some(SelectPaneDirection::Up)
    } else if c == 'D' {
        Some(SelectPaneDirection::Down)
    } else if c == 'L' {
        Some(SelectPaneDirection::Left)
    } else if c == 'R' {
        Some(SelectPaneDirection::Right)
    } else {
        None
    }
}

/// The flags of a `select-pane` command line read so far.
pub struct SelectPaneState {
    pub target: Option<Seq<char>>,
    pub mark: bool,
    pub clear_marked: bool,
    pub title: Option<Seq<char>>,
    pub direction: Option<SelectPaneDirection>,
}

pub open spec fn select_pane_initial() -> SelectPaneState {
    SelectPaneState { target: None, mark: false, clear_marked: false, title: None, direction: None }
}

/// The flags of a `select-pane` command line from token `i` on, and where
/// they end. A later direction replaces an earlier one.
pub open spec fn select_pane_loop<E>(
    args: Seq<Seq<char>>,
    i: int,
    chk: spec_fn(Seq<char>) -> Result<(), E>,
    st: SelectPaneState,
) -> Result<(SelectPaneState, int), ParseErrorView<E>>
    decreases args.len() - i,
{
    if i < 0 || i >= args.len() {
        Ok((st, i))
    } else {
        let f = single_flag(args[i]);
        if f == Some('-') {
            Ok((st, i + 1))
        } else if f == Some('t') || f == Some('T') {
            if i + 1 >= args.len() {
                Err(refused(CommandErrorView::MissingArgument(
                        if f == Some('t') {
                            "-t target"@
                        } else {
                            "-T title"@
                        },
                    )))
            } else if (f == Some('t')) && chk(args[i + 1]) is Err {
                Err(ParseErrorView::Target(chk(args[i + 1])->Err_0))
            } else if f == Some('t') {
                select_pane_loop(args, i + 2, chk, SelectPaneState { target: Some(args[i + 1]), ..st })
            } else {
                select_pane_loop(args, i + 2, chk, SelectPaneState { title: Some(args[i + 1]), ..st })
            }
        } else if f == Some('m') {
            select_pane_loop(args, i + 1, chk, SelectPaneState { mark: true, ..st })
        } else if f == Some('M') {
            select_pane_loop(args, i + 1, chk, SelectPaneState { clear_marked: true, ..st })
        } else if f is Some && select_direction(f->0) is Some {
            select_pane_loop(args, i + 1, chk, SelectPaneState { direction: select_direction(f->0), ..st })
        } else {
            Ok((st, i))
        }
    }
}

/// What `select-pane` is asked to do.
#[derive(Debug, Clone, Copy, PartialEq, Eq, Structural)]
pub enum SelectPaneKind {
    /// Select the neighbour in a direction.
    Adjacent(SelectPaneDirection),
    /// Mark the pane (or, with `clear`, clear the mark).
    Mark { clear: bool },
    /// Select the pane.
    Select,
}

/// What a `select-pane` command line says. The target is returned as
/// written, for the caller to look up.
pub struct SelectPaneTokens {
    pub target: Option<String>,
    pub title: Option<String>,
    pub kind: SelectPaneKind,
}

pub struct SelectPaneTokensView {
    pub target: Option<Seq<char>>,
    pub title: Option<Seq<char>>,
    pub kind: SelectPaneKind,
}

impl SelectPaneTokens {
    pub open spec fn view(&self) -> SelectPaneTokensView {
        SelectPaneTokensView {
            target: opt_view(self.target),
            title: opt_view(self.title),
            kind: self.kind,
        }
    }
}

/// A `select-pane` command line read: the flags and nothing after them;
/// `-m` and `-M` exclude each other, and a direction excludes `-m`, `-M` and
/// `-T`.
pub open spec fn select_pane_spec<E>(
    args: Seq<Seq<char>>,
    chk: spec_fn(Seq<char>) -> Result<(), E>,
) -> Result<SelectPaneTokensView, ParseErrorView<E>> {
    match select_pane_loop(args, 0, chk, select_pane_initial()) {
        Err(e) => Err(e),
        Ok((st, i)) => if i < args.len() {
            Err(refused(CommandErrorView::UnexpectedArgument("select-pane"@, args[i])))
        } else if st.mark && st.clear_marked {
            Err(refused(CommandErrorView::Refused("select-pane flags -m and -M cannot be used together"@)))
        } else if st.direction is Some && (st.mark || st.clear_marked || st.title is Some) {
            Err(refused(CommandErrorView::Refused(
                    "select-pane -U/-D/-L/-R cannot be combined with -m, -M, or -T"@,
                )))
        } else {
            Ok(
                SelectPaneTokensView {
                    target: st.target,
                    title: st.title,
                    kind: match st.direction {
                        Some(d) => SelectPaneKind::Adjacent(d),
                        None => if st.mark || st.clear_marked {
                            SelectPaneKind::Mark { clear: st.clear_marked }
                        } else {
                            SelectPaneKind::Select
                        },
                    },
                },
            )
        },
    }
}

/// Reads a `select-pane` command line. `check` checks each target
/// word where it is given, before the flag that follows it is read.
pub fn parse_select_pane_tokens<E, F: Fn(&String) -> Result<(), E>>(args: &[String], check: &F) -> (r: Result<
    SelectPaneTokens,
    ParseError<E>,
>)
    requires
        forall|s: &String| check.requires((s,)),
    ensures
        forall|chk: spec_fn(Seq<char>) -> Result<(), E>|
            checks_targets(*check, chk) ==> match r {
                Ok(t) => select_pane_spec(string_views(args@), chk) == Ok::<SelectPaneTokensView, ParseErrorView<E>>(t.view()),
                Err(e) => select_pane_spec(string_views(args@), chk) == Err::<SelectPaneTokensView, ParseErrorView<E>>(
                    parse_error_view(e),
                ),
            },
{
    let ghost a = string_views(args@);
    let mut target: Option<String> = None;
    let mut mark = false;
    let mut clear_marked = false;
    let mut title: Option<String> = None;
    let mut direction: Option<SelectPaneDirection> = None;
    let mut i: usize = 0;
    let mut done = false;
    while i < args.len() && !done
        invariant
            i <= args@.len(),
            a == string_views(args@),
            forall|s: &String| check.requires((s,)),
            forall|chk: spec_fn(Seq<char>) -> Result<(), E>|
                checks_targets(*check, chk) ==> {
                    &&& !done ==> select_pane_loop(a, 0, chk, select_pane_initial()) == select_pane_loop(
                        a,
                        i as int,
                        chk,
                        SelectPaneState {
                            target: opt_view(target),
                            mark,
                            clear_marked,
                            title: opt_view(title),
                            direction,
                        },
                    )
                    &&& done ==> select_pane_loop(a, 0, chk, select_pane_initial()) == Ok::<
                        (SelectPaneState, int),
                        ParseErrorView<E>,
                    >(
                        (
                            SelectPaneState {
                                target: opt_view(target),
                                mark,
                                clear_marked,
                                title: opt_view(title),
                                direction,
                            },
                            i as int,
                        ),
                    )
                },
        decreases args.len() - i + (if done { 0int } else { 1int }),
    {
        proof {
            assert(a[i as int] == args@[i as int]@);
        }
        let f = token_flag(args[i].as_str());
        if f == Some('-') {
            i = i + 1;
            done = true;
        } else if f == Some('t') || f == Some('T') {
            if i + 1 >= args.len() {
                return Err(ParseError::Command(if f == Some('t') {
                        missing_value("-t target")
                    } else {
                        missing_value("-T title")
                    }));
            }
            proof {
                assert(a[i + 1] == args@[i + 1]@);
            }
            if f == Some('t') {
                let checked = check(&args[i + 1]);
                if let Err(e) = checked {
                    return Err(ParseError::Target(e));
                }
            }
            if f == Some('t') {
                target = Some(args[i + 1].clone());
            } else {
                title = Some(args[i + 1].clone());
            }
            i = i + 2;
        } else if f == Some('m') {
            mark = true;
            i = i + 1;
        } else if f == Some('M') {
            clear_marked = true;
            i = i + 1;
        } else {
            let d = match f {
                Some(c) => select_direction_exec(c),
                None => None,
            };
            if d.is_some() {
                direction = d;
                i = i + 1;
            } else {
                done = true;
            }
        }
    }
    if i < args.len() {
        proof {
            assert(a[i as int] == args@[i as int]@);
        }
        return Err(ParseError::Command(leftover("select-pane", &args[i])));
    }
    if mark && clear_marked {
        return Err(ParseError::Command(refusal("select-pane flags -m and -M cannot be used together")));
    }
    if direction.is_some() && (mark || clear_marked || title.is_some()) {
        return Err(ParseError::Command(refusal("select-pane -U/-D/-L/-R cannot be combined with -m, -M, or -T")));
    }
    let kind = match direction {
        Some(d) => SelectPaneKind::Adjacent(d),
        None => if mark || clear_marked {
            SelectPaneKind::Mark { clear: clear_marked }
        } else {
            SelectPaneKind::Select
        },
    };
    Ok(SelectPaneTokens { target, title, kind })
}


// ---------------------------------------------------------------------------
// swap-pane
// ---------------------------------------------------------------------------

/// A direction in which `swap-pane` swaps with a neighbour.
#[derive(Debug, Clone, Copy, PartialEq, Eq, Structural)]
pub enum SwapPaneDirection {
    Down,
    Up,
}

/// The flags of a `swap-pane` command line read so far.
pub struct SwapPaneState {
    pub detached: bool,
    pub direction: Option<SwapPaneDirection>,
    pub preserve_zoom: bool,
    pub source: Option<Seq<char>>,
    pub target: Option<Seq<char>>,
}

pub open spec fn swap_pane_initial() -> SwapPaneState {
    SwapPaneState { detached: false, direction: None, preserve_zoom: false, source: None, target: None }
}

/// The flags of a `swap-pane` command line from token `i` on; a second
/// direction is refused.
pub open spec fn swap_pane_loop<E>(
    args: Seq<Seq<char>>,
    i: int,
    chk: spec_fn(Seq<char>) -> Result<(), E>,
    st: SwapPaneState,
) -> Result<(SwapPaneState, int), ParseErrorView<E>>
    decreases args.len() - i,
{
    if i < 0 || i >= args.len() {
        Ok((st, i))
    } else {
        let f = single_flag(args[i]);
        if f == Some('-') {
            Ok((st, i + 1))
        } else if f == Some('d') {
            swap_pane_loop(args, i + 1, chk, SwapPaneState { detached: true, ..st })
        } else if f == Some('Z') {
            swap_pane_loop(args, i + 1, chk, SwapPaneState { preserve_zoom: true, ..st })
        } else if f == Some('D') || f == Some('U') {
            if st.direction is Some {
                Err(refused(CommandErrorView::Refused("swap-pane accepts only one of -D or -U"@)))
            } else {
                swap_pane_loop(
                    args,
                    i + 1,
                    chk,
                    SwapPaneState {
                        direction: Some(
                            if f == Some('D') {
                                SwapPaneDirection::Down
                            } else {
                                SwapPaneDirection::Up
                            },
                        ),
                        ..st
                    },
                )
            }
        } else if f == Some('s') || f == Some('t') {
            if i + 1 >= args.len() {
                Err(refused(CommandErrorView::MissingArgument(
                        if f == Some('s') {
                            "-s target"@
                        } else {
                            "-t target"@
                        },
                    )))
            } else if (f == Some('s') || f == Some('t')) && chk(args[i + 1]) is Err {
                Err(ParseErrorView::Target(chk(args[i + 1])->Err_0))
            } else if f == Some('s') {
                swap_pane_loop(args, i + 2, chk, SwapPaneState { source: Some(args[i + 1]), ..st })
            } else {
                swap_pane_loop(args, i + 2, chk, SwapPaneState { target: Some(args[i + 1]), ..st })
            }
        } else {
            Ok((st, i))
        }
    }
}

/// What a `swap-pane` command line says. The targets are returned as
/// written; with a direction there is no source (the target swaps with its
/// neighbour).
pub struct SwapPaneTokens {
    pub source: Option<String>,
    pub target: Option<String>,
    pub direction: Option<SwapPaneDirection>,
    pub detached: bool,
    pub preserve_zoom: bool,
}

pub struct SwapPaneTokensView {
    pub source: Option<Seq<char>>,
    pub target: Option<Seq<char>>,
    pub direction: Option<SwapPaneDirection>,
    pub detached: bool,
    pub preserve_zoom: bool,
}

impl SwapPaneTokens {
    pub open spec fn view(&self) -> SwapPaneTokensView {
        SwapPaneTokensView {
            source: opt_view(self.source),
            target: opt_view(self.target),
            direction: self.direction,
            detached: self.detached,
            preserve_zoom: self.preserve_zoom,
        }
    }
}

/// A `swap-pane` command line read: the flags and nothing after them; a
/// direction excludes `-s`, and without a direction `-s` is required.
pub open spec fn swap_pane_spec<E>(
    args: Seq<Seq<char>>,
    chk: spec_fn(Seq<char>) -> Result<(), E>,
) -> Result<SwapPaneTokensView, ParseErrorView<E>> {
    match swap_pane_loop(args, 0, chk, swap_pane_initial()) {
        Err(e) => Err(e),
        Ok((st, i)) => if i < args.len() {
            Err(refused(CommandErrorView::UnexpectedArgument("swap-pane"@, args[i])))
        } else if st.direction is Some && st.source is Some {
            Err(refused(CommandErrorView::Refused("swap-pane -D/-U does not accept -s"@)))
        } else if st.direction is None && st.source is None {
            Err(refused(CommandErrorView::Refused("swap-pane requires -s source-pane unless -D/-U is used"@)))
        } else {
            Ok(
                SwapPaneTokensView {
                    source: st.source,
                    target: st.target,
                    direction: st.direction,
                    detached: st.detached,
                    preserve_zoom: st.preserve_zoom,
                },
            )
        },
    }
}

/// Reads a `swap-pane` command line. `check` checks each target
/// word where it is given, before the flag that follows it is read.
pub fn parse_swap_pane_tokens<E, F: Fn(&String) -> Result<(), E>>(args: &[String], check: &F) -> (r: Result<
    SwapPaneTokens,
    ParseError<E>,
>)
    requires
        forall|s: &String| check.requires((s,)),
    ensures
        forall|chk: spec_fn(Seq<char>) -> Result<(), E>|
            checks_targets(*check, chk) ==> match r {
                Ok(t) => swap_pane_spec(string_views(args@), chk) == Ok::<SwapPaneTokensView, ParseErrorView<E>>(t.view()),
                Err(e) => swap_pane_spec(string_views(args@), chk) == Err::<SwapPaneTokensView, ParseErrorView<E>>(
                    parse_error_view(e),
                ),
            },
{
    let ghost a = string_views(args@);
    let mut detached = false;
    let mut direction: Option<SwapPaneDirection> = None;
    let mut preserve_zoom = false;
    let mut source: Option<String> = None;
    let mut target: Option<String> = None;
    let mut i: usize = 0;
    let mut done = false;
    while i < args.len() && !done
        invariant
            i <= args@.len(),
            a == string_views(args@),
            forall|s: &String| check.requires((s,)),
            forall|chk: spec_fn(Seq<char>) -> Result<(), E>|
                checks_targets(*check, chk) ==> {
                    &&& !done ==> swap_pane_loop(a, 0, chk, swap_pane_initial()) == swap_pane_loop(
                        a,
                        i as int,
                        chk,
                        SwapPaneState {
                            detached,
                            direction,
                            preserve_zoom,
                            source: opt_view(source),
                            target: opt_view(target),
                        },
                    )
                    &&& done ==> swap_pane_loop(a, 0, chk, swap_pane_initial()) == Ok::<
                        (SwapPaneState, int),
                        ParseErrorView<E>,
                    >(
                        (
                            SwapPaneState {
                                detached,
                                direction,
                                preserve_zoom,
                                source: opt_view(source),
                                target: opt_view(target),
                            },
                            i as int,
                        ),
                    )
                },
        decreases args.len() - i + (if done { 0int } else { 1int }),
    {
        proof {
            assert(a[i as int] == args@[i as int]@);
        }
        let f = token_flag(args[i].as_str());
        if f == Some('-') {
            i = i + 1;
            done = true;
        } else if f == Some('d') {
            detached = true;
            i = i + 1;
        } else if f == Some('Z') {
            preserve_zoom = true;
            i = i + 1;
        } else if f == Some('D') || f == Some('U') {
            if direction.is_some() {
                return Err(ParseError::Command(refusal("swap-pane accepts only one of -D or -U")));
            }
            direction = Some(
                if f == Some('D') {
                    SwapPaneDirection::Down
                } else {
                    SwapPaneDirection::Up
                },
            );
            i = i + 1;
        } else if f == Some('s') || f == Some('t') {
            if i + 1 >= args.len() {
                return Err(ParseError::Command(if f == Some('s') {
                        missing_value("-s target")
                    } else {
                        missing_value("-t target")
                    }));
            }
            proof {
                assert(a[i + 1] == args@[i + 1]@);
            }
            if f == Some('s') || f == Some('t') {
                let checked = check(&args[i + 1]);
                if let Err(e) = checked {
                    return Err(ParseError::Target(e));
                }
            }
            if f == Some('s') {
                source = Some(args[i + 1].clone());
            } else {
                target = Some(args[i + 1].clone());
            }
            i = i + 2;
        } else {
            done = true;
        }
    }
    if i < args.len() {
        proof {
            assert(a[i as int] == args@[i as int]@);
        }
        return Err(ParseError::Command(leftover("swap-pane", &args[i])));
    }
    if direction.is_some() && source.is_some() {
        return Err(ParseError::Command(refusal("swap-pane -D/-U does not accept -s")));
    }
    if direction.is_none() && source.is_none() {
        return Err(ParseError::Command(refusal("swap-pane requires -s source-pane unless -D/-U is used")));
    }
    Ok(SwapPaneTokens { source, target, direction, detached, preserve_zoom })
}

// ---------------------------------------------------------------------------
// break-pane
// ---------------------------------------------------------------------------

/// The flags of a `break-pane` command line read so far.
pub struct BreakPaneState {
    pub after: bool,
    pub before: bool,
    pub detached: bool,
    pub format: Option<Seq<char>>,
    pub print_target: bool,
    pub source: Option<Seq<char>>,
    pub target: Option<Seq<char>>,
    pub name: Option<Seq<char>>,
}

pub open spec fn break_pane_initial() -> BreakPaneState {
    BreakPaneState {
        after: false,
        before: false,
        detached: false,
        format: None,
        print_target: false,
        source: None,
        target: None,
        name: None,
    }
}

/// What a missing value of the `break-pane` flag `-F`, `-s`, `-t` or `-n`
/// is called.
pub open spec fn break_pane_value_name(c: char) -> Seq<char> {
    if c == 'F' {
        "-F format"@
    } else if c == 's' {
        "-s target"@
    } else if c == 't' {
        "-t target"@
    } else {
        "-n name"@
    }
}

/// The flags of a `break-pane` command line from token `i` on; `-a` and
/// `-b` exclude each other.
pub open spec fn break_pane_loop<E>(
    args: Seq<Seq<char>>,
    i: int,
    chk: spec_fn(Seq<char>) -> Result<(), E>,
    chk_window: spec_fn(Seq<char>) -> Result<(), E>,
    st: BreakPaneState,
) -> Result<(BreakPaneState, int), ParseErrorView<E>>
    decreases args.len() - i,
{
    if i < 0 || i >= args.len() {
        Ok((st, i))
    } else {
        let f = single_flag(args[i]);
        if f == Some('-') {
            Ok((st, i + 1))
        } else if f == Some('a') {
            if st.before {
                Err(refused(CommandErrorView::Refused("break-pane accepts only one of -a or -b"@)))
            } else {
                break_pane_loop(args, i + 1, chk, chk_window, BreakPaneState { after: true, ..st })
            }
        } else if f == Some('b') {
            if st.after {
                Err(refused(CommandErrorView::Refused("break-pane accepts only one of -a or -b"@)))
            } else {
                break_pane_loop(args, i + 1, chk, chk_window, BreakPaneState { before: true, ..st })
            }
        } else if f == Some('d') {
            break_pane_loop(args, i + 1, chk, chk_window, BreakPaneState { detached: true, ..st })
        } else if f == Some('P') {
            break_pane_loop(args, i + 1, chk, chk_window, BreakPaneState { print_target: true, ..st })
        } else if f == Some('F') || f == Some('s') || f == Some('t') || f == Some('n') {
            let c = f->0;
            if i + 1 >= args.len() {
                Err(refused(CommandErrorView::MissingArgument(break_pane_value_name(c))))
            } else if (f == Some('s')) && chk(args[i + 1]) is Err {
                Err(ParseErrorView::Target(chk(args[i + 1])->Err_0))
            } else if (f == Some('t')) && chk_window(args[i + 1]) is Err {
                Err(ParseErrorView::Target(chk_window(args[i + 1])->Err_0))
            } else {
                let v = Some(args[i + 1]);
                break_pane_loop(
                    args,
                    i + 2,
                    chk,
                    chk_window,
                    if c == 'F' {
                        BreakPaneState { format: v, ..st }
                    } else if c == 's' {
                        BreakPaneState { source: v, ..st }
                    } else if c == 't' {
                        BreakPaneState { target: v, ..st }
                    } else {
                        BreakPaneState { name: v, ..st }
                    },
                )
            }
        } else {
            Ok((st, i))
        }
    }
}

/// What a `break-pane` command line says; the source pane and the target
/// window are returned as written.
pub struct BreakPaneTokens {
    pub source: Option<String>,
    pub target: Option<String>,
    pub name: Option<String>,
    pub detached: bool,
    pub after: bool,
    pub before: bool,
    pub print_target: bool,
    pub format: Option<String>,
}

pub struct BreakPaneTokensView {
    pub source: Option<Seq<char>>,
    pub target: Option<Seq<char>>,
    pub name: Option<Seq<char>>,
    pub detached: bool,
    pub after: bool,
    pub before: bool,
    pub print_target: bool,
    pub format: Option<Seq<char>>,
}

impl BreakPaneTokens {
    pub open spec fn view(&self) -> BreakPaneTokensView {
        BreakPaneTokensView {
            source: opt_view(self.source),
            target: opt_view(self.target),
            name: opt_view(self.name),
            detached: self.detached,
            after: self.after,
            before: self.before,
            print_target: self.print_target,
            format: opt_view(self.format),
        }
    }
}

/// A `break-pane` command line read: the flags and nothing after them.
pub open spec fn break_pane_spec<E>(
    args: Seq<Seq<char>>,
    chk: spec_fn(Seq<char>) -> Result<(), E>,
    chk_window: spec_fn(Seq<char>) -> Result<(), E>,
) -> Result<BreakPaneTokensView, ParseErrorView<E>> {
    match break_pane_loop(args, 0, chk, chk_window, break_pane_initial()) {
        Err(e) => Err(e),
        Ok((st, i)) => if i < args.len() {
            Err(refused(CommandErrorView::UnexpectedArgument("break-pane"@, args[i])))
        } else {
            Ok(
                BreakPaneTokensView {
                    source: st.source,
                    target: st.target,
                    name: st.name,
                    detached: st.detached,
                    after: st.after,
                    before: st.before,
                    print_target: st.print_target,
                    format: st.format,
                },
            )
        },
    }
}

fn break_pane_missing(c: char) -> (e: CommandError)
    ensures
        error_view(e) == CommandErrorView::MissingArgument(break_pane_value_name(c)),
{
    if c == 'F' {
        missing_value("-F format")
    } else if c == 's' {
        missing_value("-s target")
    } else if c == 't' {
        missing_value("-t target")
    } else {
        missing_value("-n name")
    }
}

/// Reads a `break-pane` command line. `check` checks the pane word given to
/// `-s` and `check_window` the window word given to `-t`, each where it is given.
pub fn parse_break_pane_tokens<E, F: Fn(&String) -> Result<(), E>, G: Fn(&String) -> Result<(), E>>(
    args: &[String],
    check: &F,
    check_window: &G,
) -> (r: Result<
    BreakPaneTokens,
    ParseError<E>,
>)
    requires
        forall|s: &String| check.requires((s,)),
        forall|s: &String| check_window.requires((s,)),
    ensures
        forall|chk: spec_fn(Seq<char>) -> Result<(), E>, chk_window: spec_fn(Seq<char>) -> Result<(), E>|
            checks_targets(*check, chk) && checks_targets(*check_window, chk_window) ==> match r {
                Ok(t) => break_pane_spec(string_views(args@), chk, chk_window) == Ok::<BreakPaneTokensView, ParseErrorView<E>>(t.view()),
                Err(e) => break_pane_spec(string_views(args@), chk, chk_window) == Err::<BreakPaneTokensView, ParseErrorView<E>>(
                    parse_error_view(e),
                ),
            },
{
    let ghost a = string_views(args@);
    let mut after = false;
    let mut before = false;
    let mut detached = false;
    let mut format: Option<String> = None;
    let mut print_target = false;
    let mut source: Option<String> = None;
    let mut target: Option<String> = None;
    let mut name: Option<String> = None;
    let mut i: usize = 0;
    let mut done = false;
    while i < args.len() && !done
        invariant
            i <= args@.len(),
            a == string_views(args@),
            forall|s: &String| check.requires((s,)),
            forall|s: &String| check_window.requires((s,)),
            forall|chk: spec_fn(Seq<char>) -> Result<(), E>, chk_window: spec_fn(Seq<char>) -> Result<(), E>|
                checks_targets(*check, chk) && checks_targets(*check_window, chk_window) ==> {
                    &&& !done ==> break_pane_loop(a, 0, chk, chk_window, break_pane_initial()) == break_pane_loop(
                        a,
                        i as int,
                        chk,
                        chk_window,
                        BreakPaneState {
                            after,
                            before,
                            detached,
                            format: opt_view(format),
                            print_target,
                            source: opt_view(source),
                            target: opt_view(target),
                            name: opt_view(name),
                        },
                    )
                    &&& done ==> break_pane_loop(a, 0, chk, chk_window, break_pane_initial()) == Ok::<
                        (BreakPaneState, int),
                        ParseErrorView<E>,
                    >(
                        (
                            BreakPaneState {
                                after,
                                before,
                                detached,
                                format: opt_view(format),
                                print_target,
                                source: opt_view(source),
                                target: opt_view(target),
                                name: opt_view(name),
                            },
                            i as int,
                        ),
                    )
                },
        decreases args.len() - i + (if done { 0int } else { 1int }),
    {
        proof {
            assert(a[i as int] == args@[i as int]@);
        }
        let f = token_flag(args[i].as_str());
        if f == Some('-') {
            i = i + 1;
            done = true;
        } else if f == Some('a') {
            if before {
                return Err(ParseError::Command(refusal("break-pane accepts only one of -a or -b")));
            }
            after = true;
            i = i + 1;
        } else if f == Some('b') {
            if after {
                return Err(ParseError::Command(refusal("break-pane accepts only one of -a or -b")));
            }
            before = true;
            i = i + 1;
        } else if f == Some('d') {
            detached = true;
            i = i + 1;
        } else if f == Some('P') {
            print_target = true;
            i = i + 1;
        } else if f == Some('F') || f == Some('s') || f == Some('t') || f == Some('n') {
            let c = f.unwrap();
            if i + 1 >= args.len() {
                return Err(ParseError::Command(break_pane_missing(c)));
            }
            proof {
                assert(a[i + 1] == args@[i + 1]@);
            }
            if f == Some('s') {
                let checked = check(&args[i + 1]);
                if let Err(e) = checked {
                    return Err(ParseError::Target(e));
                }
            }
            if f == Some('t') {
                let checked = check_window(&args[i + 1]);
                if let Err(e) = checked {
                    return Err(ParseError::Target(e));
                }
            }
            let v = Some(args[i + 1].clone());
            if c == 'F' {
                format = v;
            } else if c == 's' {
                source = v;
            } else if c == 't' {
                target = v;
            } else {
                name = v;
            }
            i = i + 2;
        } else {
            done = true;
        }
    }
    if i < args.len() {
        proof {
            assert(a[i as int] == args@[i as int]@);
        }
        return Err(ParseError::Command(leftover("break-pane", &args[i])));
    }
    Ok(BreakPaneTokens { source, target, name, detached, after, before, print_target, format })
}


/// The words from `start` on, if there are any.
pub open spec fn trailing_words_spec(args: Seq<Seq<char>>, start: int) -> Option<Seq<Seq<char>>> {
    if start < args.len() {
        Some(args.subrange(start, args.len() as int))
    } else {
        None
    }
}

/// The words of `args` from `start` on, if there are any.
pub fn trailing_words(args: &[String], start: usize) -> (r: Option<Vec<String>>)
    requires
        start <= args@.len(),
    ensures
        opt_list_view(r) == trailing_words_spec(string_views(args@), start as int),
{
    let ghost a = string_views(args@);
    let mut rest: Vec<String> = Vec::new();
    let mut i = start;
    while i < args.len()
        invariant
            start <= i <= args@.len(),
            a == string_views(args@),
            string_views(rest@) =~= a.subrange(start as int, i as int),
        decreases args.len() - i,
    {
        let ghost before = rest@;
        rest.push(args[i].clone());
        proof {
            assert(a[i as int] == args@[i as int]@);
            assert(string_views(rest@) =~= string_views(before).push(a[i as int]));
            assert(a.subrange(start as int, i + 1) =~= a.subrange(start as int, i as int).push(
                a[i as int],
            ));
        }
        i = i + 1;
    }
    if rest.len() > 0 {
        Some(rest)
    } else {
        None
    }
}

/// The entries given so far, or none when there are none.
pub open spec fn nonempty_list(list: Seq<Seq<char>>) -> Option<Seq<Seq<char>>> {
    if list.len() == 0 {
        None
    } else {
        Some(list)
    }
}

fn nonempty_vec(list: Vec<String>) -> (r: Option<Vec<String>>)
    ensures
        opt_list_view(r) == nonempty_list(string_views(list@)),
{
    if list.len() > 0 {
        Some(list)
    } else {
        None
    }
}

// ---------------------------------------------------------------------------
// split-window
// ---------------------------------------------------------------------------

/// How `split-window` divides a pane.
#[derive(Debug, Clone, Copy, PartialEq, Eq, Structural)]
pub enum SplitDirection {
    /// Side by side (`-h`).
    Horizontal,
    /// One above the other (`-v`, the default).
    Vertical,
}

/// The flags of a `split-window` command line read so far.
pub struct SplitWindowState {
    pub direction: SplitDirection,
    pub direction_set: bool,
    pub before: bool,
    pub environment: Seq<Seq<char>>,
    pub target: Option<Seq<char>>,
    pub start_directory: Option<Seq<char>>,
}

pub open spec fn split_window_initial() -> SplitWindowState {
    SplitWindowState {
        direction: SplitDirection::Vertical,
        direction_set: false,
        before: false,
        environment: Seq::empty(),
        target: None,
        start_directory: None,
    }
}

/// What a missing value of the `split-window` flag `-c`, `-t` or `-e` is
/// called.
pub open spec fn split_window_value_name(c: char) -> Seq<char> {
    if c == 'c' {
        "-c start-directory"@
    } else if c == 't' {
        "-t target"@
    } else {
        "-e name=value"@
    }
}

/// The flags of a `split-window` command line from token `i` on; `-h` and
/// `-v` may be given once between them.
pub open spec fn split_window_loop<E>(
    args: Seq<Seq<char>>,
    i: int,
    chk: spec_fn(Seq<char>) -> Result<(), E>,
    st: SplitWindowState,
) -> Result<(SplitWindowState, int), ParseErrorView<E>>
    decreases args.len() - i,
{
    if i < 0 || i >= args.len() {
        Ok((st, i))
    } else {
        let f = single_flag(args[i]);
        if f == Some('-') {
            Ok((st, i + 1))
        } else if f == Some('h') || f == Some('v') {
            if st.direction_set {
                Err(refused(CommandErrorView::Refused("split-window accepts only one of -h or -v"@)))
            } else {
                split_window_loop(
                    args,
                    i + 1,
                    chk,
                    SplitWindowState {
                        direction: if f == Some('h') {
                            SplitDirection::Horizontal
                        } else {
                            SplitDirection::Vertical
                        },
                        direction_set: true,
                        ..st
                    },
                )
            }
        } else if f == Some('b') {
            split_window_loop(args, i + 1, chk, SplitWindowState { before: true, ..st })
        } else if f == Some('c') || f == Some('t') || f == Some('e') {
            let c = f->0;
            if i + 1 >= args.len() {
                Err(refused(CommandErrorView::MissingArgument(split_window_value_name(c))))
            } else if (f == Some('t')) && chk(args[i + 1]) is Err {
                Err(ParseErrorView::Target(chk(args[i + 1])->Err_0))
            } else {
                let v = args[i + 1];
                split_window_loop(
                    args,
                    i + 2,
                    chk,
                    if c == 'c' {
                        SplitWindowState { start_directory: Some(v), ..st }
                    } else if c == 't' {
                        SplitWindowState { target: Some(v), ..st }
                    } else {
                        SplitWindowState { environment: st.environment.push(v), ..st }
                    },
                )
            }
        } else {
            Ok((st, i))
        }
    }
}

/// What a `split-window` command line says: the flags, and the command made
/// of the words after them. The target is returned as written.
pub struct SplitWindowTokens {
    pub target: Option<String>,
    pub direction: SplitDirection,
    pub before: bool,
    pub environment: Option<Vec<String>>,
    pub start_directory: Option<String>,
    pub command: Option<Vec<String>>,
}

pub struct SplitWindowTokensView {
    pub target: Option<Seq<char>>,
    pub direction: SplitDirection,
    pub before: bool,
    pub environment: Option<Seq<Seq<char>>>,
    pub start_directory: Option<Seq<char>>,
    pub command: Option<Seq<Seq<char>>>,
}

impl SplitWindowTokens {
    pub open spec fn view(&self) -> SplitWindowTokensView {
        SplitWindowTokensView {
            target: opt_view(self.target),
            direction: self.direction,
            before: self.before,
            environment: opt_list_view(self.environment),
            start_directory: opt_view(self.start_directory),
            command: opt_list_view(self.command),
        }
    }
}

/// A `split-window` command line read.
pub open spec fn split_window_spec<E>(
    args: Seq<Seq<char>>,
    chk: spec_fn(Seq<char>) -> Result<(), E>,
) -> Result<SplitWindowTokensView, ParseErrorView<E>> {
    match split_window_loop(args, 0, chk, split_window_initial()) {
        Err(e) => Err(e),
        Ok((st, i)) => Ok(
            SplitWindowTokensView {
                target: st.target,
                direction: st.direction,
                before: st.before,
                environment: nonempty_list(st.environment),
                start_directory: st.start_directory,
                command: trailing_words_spec(args, i),
            },
        ),
    }
}

fn split_window_missing(c: char) -> (e: CommandError)
    ensures
        error_view(e) == CommandErrorView::MissingArgument(split_window_value_name(c)),
{
    if c == 'c' {
        missing_value("-c start-directory")
    } else if c == 't' {
        missing_value("-t target")
    } else {
        missing_value("-e name=value")
    }
}

/// Reads a `split-window` command line. `check` checks each target
/// word where it is given, before the flag that follows it is read.
pub fn parse_split_window_tokens<E, F: Fn(&String) -> Result<(), E>>(args: &[String], check: &F) -> (r: Result<
    SplitWindowTokens,
    ParseError<E>,
>)
    requires
        forall|s: &String| check.requires((s,)),
    ensures
        forall|chk: spec_fn(Seq<char>) -> Result<(), E>|
            checks_targets(*check, chk) ==> match r {
                Ok(t) => split_window_spec(string_views(args@), chk) == Ok::<SplitWindowTokensView, ParseErrorView<E>>(t.view()),
                Err(e) => split_window_spec(string_views(args@), chk) == Err::<SplitWindowTokensView, ParseErrorView<E>>(
                    parse_error_view(e),
                ),
            },
{
    let ghost a = string_views(args@);
    let mut direction = SplitDirection::Vertical;
    let mut direction_set = false;
    let mut before = false;
    let mut environment: Vec<String> = Vec::new();
    let mut target: Option<String> = None;
    let mut start_directory: Option<String> = None;
    let mut i: usize = 0;
    let mut done = false;
    proof {
        assert(string_views(environment@) =~= Seq::<Seq<char>>::empty());
    }
    while i < args.len() && !done
        invariant
            i <= args@.len(),
            a == string_views(args@),
            forall|s: &String| check.requires((s,)),
            forall|chk: spec_fn(Seq<char>) -> Result<(), E>|
                checks_targets(*check, chk) ==> {
                    &&& !done ==> split_window_loop(a, 0, chk, split_window_initial()) == split_window_loop(
                        a,
                        i as int,
                        chk,
                        SplitWindowState {
                            direction,
                            direction_set,
                            before,
                            environment: string_views(environment@),
                            target: opt_view(target),
                            start_directory: opt_view(start_directory),
                        },
                    )
                    &&& done ==> split_window_loop(a, 0, chk, split_window_initial()) == Ok::<
                        (SplitWindowState, int),
                        ParseErrorView<E>,
                    >(
                        (
                            SplitWindowState {
                                direction,
                                direction_set,
                                before,
                                environment: string_views(environment@),
                                target: opt_view(target),
                                start_directory: opt_view(start_directory),
                            },
                            i as int,
                        ),
                    )
                },
        decreases args.len() - i + (if done { 0int } else { 1int }),
    {
        proof {
            assert(a[i as int] == args@[i as int]@);
        }
        let f = token_flag(args[i].as_str());
        if f == Some('-') {
            i = i + 1;
            done = true;
        } else if f == Some('h') || f == Some('v') {
            if direction_set {
                return Err(ParseError::Command(refusal("split-window accepts only one of -h or -v")));
            }
            direction = if f == Some('h') {
                SplitDirection::Horizontal
            } else {
                SplitDirection::Vertical
            };
            direction_set = true;
            i = i + 1;
        } else if f == Some('b') {
            before = true;
            i = i + 1;
        } else if f == Some('c') || f == Some('t') || f == Some('e') {
            let c = f.unwrap();
            if i + 1 >= args.len() {
                return Err(ParseError::Command(split_window_missing(c)));
            }
            proof {
                assert(a[i + 1] == args@[i + 1]@);
            }
            if f == Some('t') {
                let checked = check(&args[i + 1]);
                if let Err(e) = checked {
                    return Err(ParseError::Target(e));
                }
            }
            let v = args[i + 1].clone();
            if c == 'c' {
                start_directory = Some(v);
            } else if c == 't' {
                target = Some(v);
            } else {
                let ghost old_env = environment@;
                environment.push(v);
                proof {
                    assert(string_views(environment@) =~= string_views(old_env).push(a[i + 1]));
                }
            }
            i = i + 2;
        } else {
            done = true;
        }
    }
    let command = trailing_words(args, i);
    let environment = nonempty_vec(environment);
    Ok(SplitWindowTokens { target, direction, before, environment, start_directory, command })
}

// ---------------------------------------------------------------------------
// respawn-pane
// ---------------------------------------------------------------------------

/// The flags of a `respawn-pane` command line read so far.
pub struct RespawnPaneState {
    pub target: Option<Seq<char>>,
    pub kill: bool,
    pub start_directory: Option<Seq<char>>,
    pub environment: Seq<Seq<char>>,
}

pub open spec fn respawn_pane_initial() -> RespawnPaneState {
    RespawnPaneState { target: None, kill: false, start_directory: None, environment: Seq::empty() }
}

/// What a missing value of the `respawn-pane` flag `-c`, `-e` or `-t` is
/// called.
pub open spec fn respawn_pane_value_name(c: char) -> Seq<char> {
    if c == 'c' {
        "-c start-directory"@
    } else if c == 'e' {
        "-e environment"@
    } else {
        "-t target"@
    }
}

/// The flags of a `respawn-pane` command line from token `i` on.
pub open spec fn respawn_pane_loop<E>(
    args: Seq<Seq<char>>,
    i: int,
    chk: spec_fn(Seq<char>) -> Result<(), E>,
    st: RespawnPaneState,
) -> Result<(RespawnPaneState, int), ParseErrorView<E>>
    decreases args.len() - i,
{
    if i < 0 || i >= args.len() {
        Ok((st, i))
    } else {
        let f = single_flag(args[i]);
        if f == Some('-') {
            Ok((st, i + 1))
        } else if f == Some('k') {
            respawn_pane_loop(args, i + 1, chk, RespawnPaneState { kill: true, ..st })
        } else if f == Some('c') || f == Some('e') || f == Some('t') {
            let c = f->0;
            if i + 1 >= args.len() {
                Err(refused(CommandErrorView::MissingArgument(respawn_pane_value_name(c))))
            } else if (f == Some('t')) && chk(args[i + 1]) is Err {
                Err(ParseErrorView::Target(chk(args[i + 1])->Err_0))
            } else {
                let v = args[i + 1];
                respawn_pane_loop(
                    args,
                    i + 2,
                    chk,
                    if c == 'c' {
                        RespawnPaneState { start_directory: Some(v), ..st }
                    } else if c == 'e' {
                        RespawnPaneState { environment: st.environment.push(v), ..st }
                    } else {
                        RespawnPaneState { target: Some(v), ..st }
                    },
                )
            }
        } else {
            Ok((st, i))
        }
    }
}

/// What a `respawn-pane` command line says: the flags, and the command made
/// of the words after them. The target is returned as written.
pub struct RespawnPaneTokens {
    pub target: Option<String>,
    pub kill: bool,
    pub start_directory: Option<String>,
    pub environment: Option<Vec<String>>,
    pub command: Option<Vec<String>>,
}

pub struct RespawnPaneTokensView {
    pub target: Option<Seq<char>>,
    pub kill: bool,
    pub start_directory: Option<Seq<char>>,
    pub environment: Option<Seq<Seq<char>>>,
    pub command: Option<Seq<Seq<char>>>,
}

impl RespawnPaneTokens {
    pub open spec fn view(&self) -> RespawnPaneTokensView {
        RespawnPaneTokensView {
            target: opt_view(self.target),
            kill: self.kill,
            start_directory: opt_view(self.start_directory),
            environment: opt_list_view(self.environment),
            command: opt_list_view(self.command),
        }
    }
}

/// A `respawn-pane` command line read.
pub open spec fn respawn_pane_spec<E>(
    args: Seq<Seq<char>>,
    chk: spec_fn(Seq<char>) -> Result<(), E>,
) -> Result<RespawnPaneTokensView, ParseErrorView<E>> {
    match respawn_pane_loop(args, 0, chk, respawn_pane_initial()) {
        Err(e) => Err(e),
        Ok((st, i)) => Ok(
            RespawnPaneTokensView {
                target: st.target,
                kill: st.kill,
                start_directory: st.start_directory,
                environment: nonempty_list(st.environment),
                command: trailing_words_spec(args, i),
            },
        ),
    }
}

fn respawn_pane_missing(c: char) -> (e: CommandError)
    ensures
        error_view(e) == CommandErrorView::MissingArgument(respawn_pane_value_name(c)),
{
    if c == 'c' {
        missing_value("-c start-directory")
    } else if c == 'e' {
        missing_value("-e environment")
    } else {
        missing_value("-t target")
    }
}

/// Reads a `respawn-pane` command line. `check` checks each target
/// word where it is given, before the flag that follows it is read.
pub fn parse_respawn_pane_tokens<E, F: Fn(&String) -> Result<(), E>>(args: &[String], check: &F) -> (r: Result<
    RespawnPaneTokens,
    ParseError<E>,
>)
    requires
        forall|s: &String| check.requires((s,)),
    ensures
        forall|chk: spec_fn(Seq<char>) -> Result<(), E>|
            checks_targets(*check, chk) ==> match r {
                Ok(t) => respawn_pane_spec(string_views(args@), chk) == Ok::<RespawnPaneTokensView, ParseErrorView<E>>(t.view()),
                Err(e) => respawn_pane_spec(string_views(args@), chk) == Err::<RespawnPaneTokensView, ParseErrorView<E>>(
                    parse_error_view(e),
                ),
            },
{
    let ghost a = string_views(args@);
    let mut target: Option<String> = None;
    let mut kill = false;
    let mut start_directory: Option<String> = None;
    let mut environment: Vec<String> = Vec::new();
    let mut i: usize = 0;
    let mut done = false;
    proof {
        assert(string_views(environment@) =~= Seq::<Seq<char>>::empty());
    }
    while i < args.len() && !done
        invariant
            i <= args@.len(),
            a == string_views(args@),
            forall|s: &String| check.requires((s,)),
            forall|chk: spec_fn(Seq<char>) -> Result<(), E>|
                checks_targets(*check, chk) ==> {
                    &&& !done ==> respawn_pane_loop(a, 0, chk, respawn_pane_initial()) == respawn_pane_loop(
                        a,
                        i as int,
                        chk,
                        RespawnPaneState {
                            target: opt_view(target),
                            kill,
                            start_directory: opt_view(start_directory),
                            environment: string_views(environment@),
                        },
                    )
                    &&& done ==> respawn_pane_loop(a, 0, chk, respawn_pane_initial()) == Ok::<
                        (RespawnPaneState, int),
                        ParseErrorView<E>,
                    >(
                        (
                            RespawnPaneState {
                                target: opt_view(target),
                                kill,
                                start_directory: opt_view(start_directory),
                                environment: string_views(environment@),
                            },
                            i as int,
                        ),
                    )
                },
        decreases args.len() - i + (if done { 0int } else { 1int }),
    {
        proof {
            assert(a[i as int] == args@[i as int]@);
        }
        let f = token_flag(args[i].as_str());
        if f == Some('-') {
            i = i + 1;
            done = true;
        } else if f == Some('k') {
            kill = true;
            i = i + 1;
        } else if f == Some('c') || f == Some('e') || f == Some('t') {
            let c = f.unwrap();
            if i + 1 >= args.len() {
                return Err(ParseError::Command(respawn_pane_missing(c)));
            }
            proof {
                assert(a[i + 1] == args@[i + 1]@);
            }
            if f == Some('t') {
                let checked = check(&args[i + 1]);
                if let Err(e) = checked {
                    return Err(ParseError::Target(e));
                }
            }
            let v = args[i + 1].clone();
            if c == 'c' {
                start_directory = Some(v);
            } else if c == 'e' {
                let ghost old_env = environment@;
                environment.push(v);
                proof {
                    assert(string_views(environment@) =~= string_views(old_env).push(a[i + 1]));
                }
            } else {
                target = Some(v);
            }
            i = i + 2;
        } else {
            done = true;
        }
    }
    let command = trailing_words(args, i);
    let environment = nonempty_vec(environment);
    Ok(RespawnPaneTokens { target, kill, start_directory, environment, command })
}


// ---------------------------------------------------------------------------
// kill-pane
// ---------------------------------------------------------------------------

/// The leading flags of a `kill-pane` command line from token `i` on: the
/// raw target, whether every other pane goes (`-a`), and where they end.
pub open spec fn kill_pane_loop<E>(
    args: Seq<Seq<char>>,
    i: int,
    chk: spec_fn(Seq<char>) -> Result<(), E>,
    target: Option<Seq<char>>,
    all: bool,
) -> Result<(Option<Seq<char>>, bool, int), ParseErrorView<E>>
    decreases args.len() - i,
{
    if i < 0 || i >= args.len() {
        Ok((target, all, i))
    } else {
        let f = single_flag(args[i]);
        if f == Some('-') {
            Ok((target, all, i + 1))
        } else if f == Some('a') {
            kill_pane_loop(args, i + 1, chk, target, true)
        } else if f == Some('t') {
            if i + 1 >= args.len() {
                Err(refused(CommandErrorView::MissingArgument("-t target"@)))
            } else if chk(args[i + 1]) is Err {
                Err(ParseErrorView::Target(chk(args[i + 1])->Err_0))
            } else {
                kill_pane_loop(args, i + 2, chk, Some(args[i + 1]), all)
            }
        } else {
            Ok((target, all, i))
        }
    }
}

/// A `kill-pane` command line read: the flags and nothing after them.
/// `chk` is the check of a target word.
pub open spec fn kill_pane_spec<E>(
    args: Seq<Seq<char>>,
    chk: spec_fn(Seq<char>) -> Result<(), E>,
) -> Result<(Option<Seq<char>>, bool), ParseErrorView<E>> {
    match kill_pane_loop(args, 0, chk, None, false) {
        Err(e) => Err(e),
        Ok((target, all, i)) => if i < args.len() {
            Err(refused(CommandErrorView::UnexpectedArgument("kill-pane"@, args[i])))
        } else {
            Ok((target, all))
        },
    }
}

/// Reads a `kill-pane` command line: the raw target and `-a`. `check`
/// checks the target word where it is given.
pub fn parse_kill_pane_tokens<E, F: Fn(&String) -> Result<(), E>>(args: &[String], check: &F) -> (r:
    Result<(Option<String>, bool), ParseError<E>>)
    requires
        forall|s: &String| check.requires((s,)),
    ensures
        forall|chk: spec_fn(Seq<char>) -> Result<(), E>|
            checks_targets(*check, chk) ==> match r {
                Ok((t, all)) => kill_pane_spec(string_views(args@), chk) == Ok::<
                    (Option<Seq<char>>, bool),
                    ParseErrorView<E>,
                >((opt_view(t), all)),
                Err(e) => kill_pane_spec(string_views(args@), chk) == Err::<
                    (Option<Seq<char>>, bool),
                    ParseErrorView<E>,
                >(parse_error_view(e)),
            },
{
    let ghost a = string_views(args@);
    let mut target: Option<String> = None;
    let mut all = false;
    let mut i: usize = 0;
    let mut done = false;
    while i < args.len() && !done
        invariant
            i <= args@.len(),
            a == string_views(args@),
            forall|s: &String| check.requires((s,)),
            forall|chk: spec_fn(Seq<char>) -> Result<(), E>|
                checks_targets(*check, chk) ==> {
                    &&& !done ==> kill_pane_loop(a, 0, chk, None, false) == kill_pane_loop(
                        a,
                        i as int,
                        chk,
                        opt_view(target),
                        all,
                    )
                    &&& done ==> kill_pane_loop(a, 0, chk, None, false) == Ok::<
                        (Option<Seq<char>>, bool, int),
                        ParseErrorView<E>,
                    >((opt_view(target), all, i as int))
                },
        decreases args.len() - i + (if done { 0int } else { 1int }),
    {
        proof {
            assert(a[i as int] == args@[i as int]@);
        }
        let f = token_flag(args[i].as_str());
        if f == Some('-') {
            i = i + 1;
            done = true;
        } else if f == Some('a') {
            all = true;
            i = i + 1;
        } else if f == Some('t') {
            if i + 1 >= args.len() {
                return Err(ParseError::Command(missing_value("-t target")));
            }
            proof {
                assert(a[i + 1] == args@[i + 1]@);
            }
            let checked = check(&args[i + 1]);
            if let Err(e) = checked {
                return Err(ParseError::Target(e));
            }
            target = Some(args[i + 1].clone());
            i = i + 2;
        } else {
            done = true;
        }
    }
    if i < args.len() {
        proof {
            assert(a[i as int] == args@[i as int]@);
        }
        return Err(ParseError::Command(leftover("kill-pane", &args[i])));
    }
    Ok((target, all))
}

// ---------------------------------------------------------------------------
// pipe-pane
// ---------------------------------------------------------------------------

/// The leading flags of a `pipe-pane` command line from token `i` on:
/// `-I`, `-O`, `-o`, the raw target, and where they end.
pub open spec fn pipe_pane_loop<E>(
    args: Seq<Seq<char>>,
    i: int,
    chk: spec_fn(Seq<char>) -> Result<(), E>,
    flags: (bool, bool, bool),
    target: Option<Seq<char>>,
) -> Result<((bool, bool, bool), Option<Seq<char>>, int), ParseErrorView<E>>
    decreases args.len() - i,
{
    if i < 0 || i >= args.len() {
        Ok((flags, target, i))
    } else {
        let f = single_flag(args[i]);
        if f == Some('-') {
            Ok((flags, target, i + 1))
        } else if f == Some('I') {
            pipe_pane_loop(args, i + 1, chk, (true, flags.1, flags.2), target)
        } else if f == Some('O') {
            pipe_pane_loop(args, i + 1, chk, (flags.0, true, flags.2), target)
        } else if f == Some('o') {
            pipe_pane_loop(args, i + 1, chk, (flags.0, flags.1, true), target)
        } else if f == Some('t') {
            if i + 1 >= args.len() {
                Err(refused(CommandErrorView::MissingArgument("-t target"@)))
            } else if (f == Some('t')) && chk(args[i + 1]) is Err {
                Err(ParseErrorView::Target(chk(args[i + 1])->Err_0))
            } else {
                pipe_pane_loop(args, i + 2, chk, flags, Some(args[i + 1]))
            }
        } else {
            Ok((flags, target, i))
        }
    }
}

/// What a `pipe-pane` command line says: the raw target (required), the
/// directions (output alone when neither `-I` nor `-O` is given), `-o`, and
/// the words of the shell command, for the caller to join.
pub struct PipePaneTokens {
    pub target: String,
    pub stdin: bool,
    pub stdout: bool,
    pub once: bool,
    pub command: Option<Vec<String>>,
}

pub struct PipePaneTokensView {
    pub target: Seq<char>,
    pub stdin: bool,
    pub stdout: bool,
    pub once: bool,
    pub command: Option<Seq<Seq<char>>>,
}

impl PipePaneTokens {
    pub open spec fn view(&self) -> PipePaneTokensView {
        PipePaneTokensView {
            target: self.target@,
            stdin: self.stdin,
            stdout: self.stdout,
            once: self.once,
            command: opt_list_view(self.command),
        }
    }
}

/// A `pipe-pane` command line read; `-t` is required.
pub open spec fn pipe_pane_spec<E>(
    args: Seq<Seq<char>>,
    chk: spec_fn(Seq<char>) -> Result<(), E>,
) -> Result<PipePaneTokensView, ParseErrorView<E>> {
    match pipe_pane_loop(args, 0, chk, (false, false, false), None) {
        Err(e) => Err(e),
        Ok((flags, target, i)) => match target {
            None => Err(refused(CommandErrorView::MissingArgument("-t target"@))),
            Some(t) => Ok(
                PipePaneTokensView {
                    target: t,
                    stdin: flags.0,
                    stdout: if flags.0 || flags.1 {
                        flags.1
                    } else {
                        true
                    },
                    once: flags.2,
                    command: trailing_words_spec(args, i),
                },
            ),
        },
    }
}

/// Reads a `pipe-pane` command line. `check` checks each target
/// word where it is given, before the flag that follows it is read.
pub fn parse_pipe_pane_tokens<E, F: Fn(&String) -> Result<(), E>>(args: &[String], check: &F) -> (r: Result<
    PipePaneTokens,
    ParseError<E>,
>)
    requires
        forall|s: &String| check.requires((s,)),
    ensures
        forall|chk: spec_fn(Seq<char>) -> Result<(), E>|
            checks_targets(*check, chk) ==> match r {
                Ok(t) => pipe_pane_spec(string_views(args@), chk) == Ok::<PipePaneTokensView, ParseErrorView<E>>(t.view()),
                Err(e) => pipe_pane_spec(string_views(args@), chk) == Err::<PipePaneTokensView, ParseErrorView<E>>(
                    parse_error_view(e),
                ),
            },
{
    let ghost a = string_views(args@);
    let mut stdin = false;
    let mut stdout = false;
    let mut once = false;
    let mut target: Option<String> = None;
    let mut i: usize = 0;
    let mut done = false;
    while i < args.len() && !done
        invariant
            i <= args@.len(),
            a == string_views(args@),
            forall|s: &String| check.requires((s,)),
            forall|chk: spec_fn(Seq<char>) -> Result<(), E>|
                checks_targets(*check, chk) ==> {
                    &&& !done ==> pipe_pane_loop(a, 0, chk, (false, false, false), None) == pipe_pane_loop(
                        a,
                        i as int,
                        chk,
                        (stdin, stdout, once),
                        opt_view(target),
                    )
                    &&& done ==> pipe_pane_loop(a, 0, chk, (false, false, false), None) == Ok::<
                        ((bool, bool, bool), Option<Seq<char>>, int),
                        ParseErrorView<E>,
                    >(((stdin, stdout, once), opt_view(target), i as int))
                },
        decreases args.len() - i + (if done { 0int } else { 1int }),
    {
        proof {
            assert(a[i as int] == args@[i as int]@);
        }
        let f = token_flag(args[i].as_str());
        if f == Some('-') {
            i = i + 1;
            done = true;
        } else if f == Some('I') {
            stdin = true;
            i = i + 1;
        } else if f == Some('O') {
            stdout = true;
            i = i + 1;
        } else if f == Some('o') {
            once = true;
            i = i + 1;
        } else if f == Some('t') {
            if i + 1 >= args.len() {
                return Err(ParseError::Command(missing_value("-t target")));
            }
            proof {
                assert(a[i + 1] == args@[i + 1]@);
            }
            if f == Some('t') {
                let checked = check(&args[i + 1]);
                if let Err(e) = checked {
                    return Err(ParseError::Target(e));
                }
            }
            target = Some(args[i + 1].clone());
            i = i + 2;
        } else {
            done = true;
        }
    }
    let command = trailing_words(args, i);
    match target {
        None => Err(ParseError::Command(missing_value("-t target"))),
        Some(target) => Ok(
            PipePaneTokens {
                target,
                stdin,
                stdout: if stdin || stdout {
                    stdout
                } else {
                    true
                },
                once,
                command,
            },
        ),
    }
}

// ---------------------------------------------------------------------------
// Laws of the select-pane directions
// ---------------------------------------------------------------------------

/// The flag letter of a direction: `U` up, `D` down, `L` left, `R` right.
pub open spec fn direction_letter(d: SelectPaneDirection) -> char {
    match d {
        SelectPaneDirection::Up => 'U',
        SelectPaneDirection::Down => 'D',
        SelectPaneDirection::Left => 'L',
        SelectPaneDirection::Right => 'R',
    }
}

pub open spec fn is_double_dash(t: Seq<char>) -> bool {
    t == seq!['-', '-']
}

/// A line that reads through to its end without `--` reads the same way with
/// a token after it, up to that token.
proof fn lemma_select_loop_extends<E>(
    args: Seq<Seq<char>>,
    x: Seq<char>,
    i: int,
    chk: spec_fn(Seq<char>) -> Result<(), E>,
    st: SelectPaneState,
    end: SelectPaneState,
)
    requires
        0 <= i <= args.len(),
        forall|k: int| 0 <= k < args.len() ==> !is_double_dash(#[trigger] args[k]),
        select_pane_loop(args, i, chk, st) == Ok::<(SelectPaneState, int), ParseErrorView<E>>(
            (end, args.len() as int),
        ),
    ensures
        select_pane_loop(args.push(x), i, chk, st) == select_pane_loop(
            args.push(x),
            args.len() as int,
            chk,
            end,
        ),
    decreases args.len() - i,
{
    let ext = args.push(x);
    if i < args.len() {
        assert(ext[i] == args[i]);
        assert(!is_double_dash(args[i]));
        let f = single_flag(args[i]);
        if f == Some('-') {
            assert(args[i] =~= seq!['-', '-']);
        }
        if f == Some('t') || f == Some('T') {
            assert(i + 1 < args.len());
            assert(ext[i + 1] == args[i + 1]);
            if f == Some('t') {
                lemma_select_loop_extends(args, x, i + 2, chk, SelectPaneState { target: Some(args[i + 1]), ..st }, end);
            } else {
                lemma_select_loop_extends(args, x, i + 2, chk, SelectPaneState { title: Some(args[i + 1]), ..st }, end);
            }
        } else if f == Some('m') {
            lemma_select_loop_extends(args, x, i + 1, chk, SelectPaneState { mark: true, ..st }, end);
        } else if f == Some('M') {
            lemma_select_loop_extends(args, x, i + 1, chk, SelectPaneState { clear_marked: true, ..st }, end);
        } else if f is Some && select_direction(f->0) is Some {
            lemma_select_loop_extends(args, x, i + 1, chk, SelectPaneState { direction: select_direction(f->0), ..st }, end);
        }
    }
}

proof fn lemma_select_loop_end_in_range<E>(
    args: Seq<Seq<char>>,
    i: int,
    chk: spec_fn(Seq<char>) -> Result<(), E>,
    st: SelectPaneState,
)
    requires
        0 <= i <= args.len(),
    ensures
        select_pane_loop(args, i, chk, st) is Ok ==> i <= select_pane_loop(args, i, chk, st)->Ok_0.1
            <= args.len(),
    decreases args.len() - i,
{
    if i < args.len() {
        let f = single_flag(args[i]);
        if f == Some('-') {
        } else if f == Some('t') || f == Some('T') {
            if i + 1 < args.len() {
                if f == Some('t') {
                    lemma_select_loop_end_in_range(args, i + 2, chk, SelectPaneState { target: Some(args[i + 1]), ..st });
                } else {
                    lemma_select_loop_end_in_range(args, i + 2, chk, SelectPaneState { title: Some(args[i + 1]), ..st });
                }
            }
        } else if f == Some('m') {
            lemma_select_loop_end_in_range(args, i + 1, chk, SelectPaneState { mark: true, ..st });
        } else if f == Some('M') {
            lemma_select_loop_end_in_range(args, i + 1, chk, SelectPaneState { clear_marked: true, ..st });
        } else if f is Some && select_direction(f->0) is Some {
            lemma_select_loop_end_in_range(args, i + 1, chk, SelectPaneState { direction: select_direction(f->0), ..st });
        }
    }
}

/// A direction token `-U`, `-D`, `-L` or `-R` put after any `select-pane`
/// line that reads without a title or a mark (and holds no `--`) selects the
/// neighbour in that direction, up for `U`, down for `D`, left for `L`, right
/// for `R`: the last direction given decides, and the target is kept.
pub proof fn law_last_direction_token_decides<E>(
    args: Seq<Seq<char>>,
    c: char,
    chk: spec_fn(Seq<char>) -> Result<(), E>,
)
    requires
        c == 'U' || c == 'D' || c == 'L' || c == 'R',
        forall|k: int| 0 <= k < args.len() ==> !is_double_dash(#[trigger] args[k]),
        select_pane_spec(args, chk) is Ok,
        select_pane_spec(args, chk)->Ok_0.title is None,
        !(select_pane_spec(args, chk)->Ok_0.kind is Mark),
    ensures
        select_pane_spec(args.push(seq!['-', c]), chk) is Ok,
        select_pane_spec(args.push(seq!['-', c]), chk)->Ok_0.target == select_pane_spec(args, chk)->Ok_0.target,
        select_pane_spec(args.push(seq!['-', c]), chk)->Ok_0.title is None,
        select_pane_spec(args.push(seq!['-', c]), chk)->Ok_0.kind is Adjacent,
        direction_letter(select_pane_spec(args.push(seq!['-', c]), chk)->Ok_0.kind->Adjacent_0) == c,
{
    let x = seq!['-', c];
    let ext = args.push(x);
    lemma_select_loop_end_in_range(args, 0, chk, select_pane_initial());
    let (end, j) = select_pane_loop(args, 0, chk, select_pane_initial())->Ok_0;
    lemma_select_loop_extends(args, x, 0, chk, select_pane_initial(), end);
    assert(ext[args.len() as int] == x);
    assert(single_flag(x) == Some(c));
    let after = SelectPaneState { direction: select_direction(c), ..end };
    assert(select_pane_loop(ext, args.len() + 1int, chk, after) == Ok::<
        (SelectPaneState, int),
        ParseErrorView<E>,
    >((after, ext.len() as int)));
}

/// `select-pane` moves in a direction only when the line holds that
/// direction's flag token (`-U` for up, `-D` for down, `-L` for left, `-R`
/// for right).
pub proof fn law_direction_comes_from_its_flag<E>(
    args: Seq<Seq<char>>,
    chk: spec_fn(Seq<char>) -> Result<(), E>,
)
    ensures
        select_pane_spec(args, chk) is Ok && select_pane_spec(args, chk)->Ok_0.kind is Adjacent
            ==> exists|k: int|
            0 <= k < args.len() && #[trigger] args[k] == seq![
                '-',
                direction_letter(select_pane_spec(args, chk)->Ok_0.kind->Adjacent_0),
            ],
{
    lemma_direction_from_flag(args, 0, chk, select_pane_initial());
}

proof fn lemma_direction_from_flag<E>(
    args: Seq<Seq<char>>,
    i: int,
    chk: spec_fn(Seq<char>) -> Result<(), E>,
    st: SelectPaneState,
)
    requires
        0 <= i,
    ensures
        select_pane_loop(args, i, chk, st) is Ok && select_pane_loop(args, i, chk, st)->Ok_0.0.direction
            is Some ==> st.direction == select_pane_loop(args, i, chk, st)->Ok_0.0.direction
            || exists|k: int|
            i <= k < args.len() && #[trigger] args[k] == seq![
                '-',
                direction_letter(select_pane_loop(args, i, chk, st)->Ok_0.0.direction->Some_0),
            ],
    decreases args.len() - i,
{
    if i < args.len() {
        let f = single_flag(args[i]);
        if f == Some('-') {
        } else if f == Some('t') || f == Some('T') {
            if i + 1 < args.len() {
                if f == Some('t') {
                    lemma_direction_from_flag(args, i + 2, chk, SelectPaneState { target: Some(args[i + 1]), ..st });
                } else {
                    lemma_direction_from_flag(args, i + 2, chk, SelectPaneState { title: Some(args[i + 1]), ..st });
                }
            }
        } else if f == Some('m') {
            lemma_direction_from_flag(args, i + 1, chk, SelectPaneState { mark: true, ..st });
        } else if f == Some('M') {
            lemma_direction_from_flag(args, i + 1, chk, SelectPaneState { clear_marked: true, ..st });
        } else if f is Some && select_direction(f->0) is Some {
            let nd = select_direction(f->0);
            lemma_direction_from_flag(args, i + 1, chk, SelectPaneState { direction: nd, ..st });
            assert(args[i] =~= seq!['-', direction_letter(nd->0)]);
        }
    }
}

} // verus!
