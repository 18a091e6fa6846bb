use vstd::prelude::*;

use crate::config_parse::{
    checks_targets, parse_error_view, refused, ParseError, ParseErrorView, error_view, opt_view, parse_u16_spec, parse_u16_value, parse_u64_spec, parse_u64_value,
    single_flag, starts_with_dash, string_from, token_flag, token_starts_with_dash, CommandError,
    CommandErrorView,
};
use crate::pane_parse::{leftover, missing_value, refusal, trailing_words, trailing_words_spec};
use crate::queue_parse::opt_list_view;
use crate::source_files::string_views;
use crate::text::string_push;

verus! {

/// How `resize-pane` changes a pane.
#[derive(Debug, Clone, Copy, PartialEq, Eq, Structural)]
pub enum ResizePaneAdjustment {
    Up { cells: u16 },
    Down { cells: u16 },
    Left { cells: u16 },
    Right { cells: u16 },
    Zoom,
    AbsoluteSize { columns: u16, rows: u16 },
    AbsoluteWidth { columns: u16 },
    AbsoluteHeight { rows: u16 },
    NoOp,
}

/// The refusal of a second adjustment.
pub open spec fn one_adjustment_message() -> Seq<char> {
    "resize-pane accepts only one adjustment flag"@
}

/// The number of cells after a direction flag `-U`, `-D`, `-L` or `-R` whose
/// token sits at `i - 1`: the token at `i` when it does not start with `-`
/// (or is `-` itself), else one cell. Returns where reading goes on.
pub open spec fn resize_delta_spec(args: Seq<Seq<char>>, i: int, flag: char) -> Result<
    (u16, int),
    CommandErrorView,
> {
    if 0 <= i < args.len() && (!starts_with_dash(args[i]) || args[i] == seq!['-']) {
        match parse_u16_spec(args[i]) {
            Some(v) => Ok((v, i + 1)),
            None => Err(
                CommandErrorView::InvalidNumber("resize-pane"@, seq!['-', flag], args[i]),
            ),
        }
    } else {
        Ok((1, i))
    }
}

fn flag_text(flag: char) -> (s: String)
    ensures
        s@ == seq!['-', flag],
{
    let mut s = String::new();
    string_push(&mut s, '-');
    string_push(&mut s, flag);
    proof {
        assert(s@ =~= seq!['-', flag]);
    }
    s
}

/// Reads the cell count after the direction flag `-flag`, from token `i`.
pub fn parse_resize_pane_delta(args: &[String], i: usize, flag: char) -> (r: Result<
    (u16, usize),
    CommandError,
>)
    requires
        i <= args@.len(),
    ensures
        match r {
            Ok((v, j)) => resize_delta_spec(string_views(args@), i as int, flag) == Ok::<
                (u16, int),
                CommandErrorView,
            >((v, j as int)),
            Err(e) => resize_delta_spec(string_views(args@), i as int, flag) == Err::<
                (u16, int),
                CommandErrorView,
            >(error_view(e)),
        },
{
    if i < args.len() {
        let t = args[i].as_str();
        proof {
            assert(string_views(args@)[i as int] == t@);
        }
        let lone_dash = token_flag(t).is_none() && crate::text::str_eq(t, "-");
        proof {
            reveal_strlit("-");
            if t@ == seq!['-'] {
                assert(t@ =~= "-"@);
            }
            if t@ == "-"@ {
                assert(t@ =~= seq!['-']);
            }
        }
        if !token_starts_with_dash(t) || lone_dash {
            return match parse_u16_value(t) {
                Some(v) => Ok((v, i + 1)),
                None => Err(
                    CommandError::InvalidNumber {
                        command: string_from("resize-pane"),
                        flag: flag_text(flag),
                        value: args[i].clone(),
                    },
                ),
            };
        }
    }
    Ok((1, i))
}

/// The adjustment chosen so far (a direction or zoom), the absolute width
/// and height, and the raw target.
pub struct ResizeState {
    pub adjustment: Option<ResizePaneAdjustment>,
    pub width: Option<u16>,
    pub height: Option<u16>,
    pub target: Option<Seq<char>>,
}

/// The direction adjustment of a flag character with `cells`.
pub open spec fn direction(c: char, cells: u16) -> Option<ResizePaneAdjustment> {
    if c == 'U' {
        Some(ResizePaneAdjustment::Up { cells })
    } else if c == 'D' {
        Some(ResizePaneAdjustment::Down { cells })
    } else if c == 'L' {
        Some(ResizePaneAdjustment::Left { cells })
    } else if c == 'R' {
        Some(ResizePaneAdjustment::Right { cells })
    } else {
        None
    }
}

/// The flags of a `resize-pane` command line from token `i` on. `-x` and
/// `-y` are refused after a direction or zoom; a direction or zoom is
/// refused after any adjustment or absolute size.
pub open spec fn resize_loop<E>(
    args: Seq<Seq<char>>,
    i: int,
    chk: spec_fn(Seq<char>) -> Result<(), E>,
    st: ResizeState,
) -> Result<(ResizeState, int), ParseErrorView<E>>
    decreases args.len() - i,
{
    if i < 0 || i >= args.len() {
        Ok((st, i))
    } else {
        let t = args[i];
        let f = single_flag(t);
        if f == Some('-') {
            Ok((st, i + 1))
        } else if f == Some('t') {
            if i + 1 < args.len() {
                match chk(args[i + 1]) {
                    Err(e) => Err(ParseErrorView::Target(e)),
                    Ok(_) => resize_loop(args, i + 2, chk, ResizeState { target: Some(args[i + 1]), ..st }),
                }
            } else {
                Err(refused(CommandErrorView::MissingArgument("-t target"@)))
            }
        } else if f == Some('x') || f == Some('y') {
            let c = f->0;
            if st.adjustment is Some {
                Err(refused(CommandErrorView::Refused(one_adjustment_message())))
            } else if i + 1 >= args.len() {
                Err(refused(CommandErrorView::MissingArgument(seq!['-', c] + " value"@)))
            } else {
                match parse_u16_spec(args[i + 1]) {
                    None => Err(
                        refused(
                            CommandErrorView::InvalidNumber("resize-pane"@, seq!['-', c], args[i + 1]),
                        ),
                    ),
                    Some(v) => resize_loop(
                        args,
                        i + 2,
                        chk,
                        if c == 'x' {
                            ResizeState { width: Some(v), ..st }
                        } else {
                            ResizeState { height: Some(v), ..st }
                        },
                    ),
                }
            }
        } else if f == Some('U') || f == Some('D') || f == Some('L') || f == Some('R') || f == Some(
            'Z',
        ) {
            let c = f->0;
            if st.adjustment is Some || st.width is Some || st.height is Some {
                Err(refused(CommandErrorView::Refused(one_adjustment_message())))
            } else if c == 'Z' {
                resize_loop(
                    args,
                    i + 1,
                    chk,
                    ResizeState { adjustment: Some(ResizePaneAdjustment::Zoom), ..st },
                )
            } else {
                match resize_delta_spec(args, i + 1, c) {
                    Err(e) => Err(refused(e)),
                    Ok((cells, j)) => resize_loop(
                        args,
                        j,
                        chk,
                        ResizeState { adjustment: direction(c, cells), ..st },
                    ),
                }
            }
        } else {
            Ok((st, i))
        }
    }
}

/// The adjustment that the flags ask for: a direction or zoom, else the
/// absolute sizes given, else none.
pub open spec fn final_adjustment(st: ResizeState) -> ResizePaneAdjustment {
    match st.adjustment {
        Some(a) => a,
        None => match (st.width, st.height) {
            (Some(columns), Some(rows)) => ResizePaneAdjustment::AbsoluteSize { columns, rows },
            (Some(columns), None) => ResizePaneAdjustment::AbsoluteWidth { columns },
            (None, Some(rows)) => ResizePaneAdjustment::AbsoluteHeight { rows },
            (None, None) => ResizePaneAdjustment::NoOp,
        },
    }
}

/// What a `resize-pane` command line says: the raw target and the
/// adjustment.
pub struct ResizePaneTokens {
    pub target: Option<String>,
    pub adjustment: ResizePaneAdjustment,
}

pub struct ResizePaneTokensView {
    pub target: Option<Seq<char>>,
    pub adjustment: ResizePaneAdjustment,
}

impl ResizePaneTokens {
    pub open spec fn view(&self) -> ResizePaneTokensView {
        ResizePaneTokensView { target: opt_view(self.target), adjustment: self.adjustment }
    }
}

pub open spec fn resize_initial() -> ResizeState {
    ResizeState { adjustment: None, width: None, height: None, target: None }
}

/// A `resize-pane` command line read: the flags and nothing after them.
/// `chk` is the check of a target word.
pub open spec fn resize_pane_spec<E>(
    args: Seq<Seq<char>>,
    chk: spec_fn(Seq<char>) -> Result<(), E>,
) -> Result<ResizePaneTokensView, ParseErrorView<E>> {
    match resize_loop(args, 0, chk, resize_initial()) {
        Err(e) => Err(e),
        Ok((st, i)) => if i < args.len() {
            Err(refused(CommandErrorView::UnexpectedArgument("resize-pane"@, args[i])))
        } else {
            Ok(ResizePaneTokensView { target: st.target, adjustment: final_adjustment(st) })
        },
    }
}

fn missing_flag_value(c: char) -> (e: CommandError)
    ensures
        error_view(e) == CommandErrorView::MissingArgument(seq!['-', c] + " value"@),
{
    let mut what = flag_text(c);
    what.append(" value");
    CommandError::MissingArgument { what }
}

fn one_adjustment() -> (e: CommandError)
    ensures
        error_view(e) == CommandErrorView::Refused(one_adjustment_message()),
{
    CommandError::Refused(string_from("resize-pane accepts only one adjustment flag"))
}

fn direction_exec(c: char, cells: u16) -> (r: ResizePaneAdjustment)
    requires
        c == 'U' || c == 'D' || c == 'L' || c == 'R',
    ensures
        Some(r) == direction(c, cells),
{
    if c == 'U' {
        ResizePaneAdjustment::Up { cells }
    } else if c == 'D' {
        ResizePaneAdjustment::Down { cells }
    } else if c == 'L' {
        ResizePaneAdjustment::Left { cells }
    } else {
        ResizePaneAdjustment::Right { cells }
    }
}

/// Reads a `resize-pane` command line. `check` checks each word given to
/// `-t` where it is given; the target is returned as written, for the caller
/// to look up.
pub fn parse_resize_pane_tokens<E, F: Fn(&String) -> Result<(), E>>(args: &[String], check: &F) -> (r:
    Result<ResizePaneTokens, ParseError<E>>)
    requires
        forall|s: &String| check.requires((s,)),
    ensures
        forall|chk: spec_fn(Seq<char>) -> Result<(), E>|
            checks_targets(*check, chk) ==> match r {
                Ok(t) => resize_pane_spec(string_views(args@), chk) == Ok::<
                    ResizePaneTokensView,
                    ParseErrorView<E>,
                >(t.view()),
                Err(e) => resize_pane_spec(string_views(args@), chk) == Err::<
                    ResizePaneTokensView,
                    ParseErrorView<E>,
                >(parse_error_view(e)),
            },
{
    let ghost a = string_views(args@);
    let mut adjustment: Option<ResizePaneAdjustment> = None;
    let mut width: Option<u16> = None;
    let mut height: Option<u16> = None;
    let mut target: Option<String> = None;
    let mut i: usize = 0;
    let mut done = false;
    while i < args.len() && !done
        invariant
            i <= args@.len(),
            a == string_views(args@),
            forall|s: &String| check.requires((s,)),
            forall|chk: spec_fn(Seq<char>) -> Result<(), E>|
                checks_targets(*check, chk) ==> {
                    &&& !done ==> resize_loop(a, 0, chk, resize_initial()) == resize_loop(
                        a,
                        i as int,
                        chk,
                        ResizeState { adjustment, width, height, target: opt_view(target) },
                    )
                    &&& done ==> resize_loop(a, 0, chk, resize_initial()) == Ok::<
                        (ResizeState, int),
                        ParseErrorView<E>,
                    >((ResizeState { adjustment, width, height, target: opt_view(target) }, i as int))
                },
        decreases args.len() - i + (if done { 0int } else { 1int }),
    {
        let t = args[i].as_str();
        proof {
            assert(a[i as int] == t@);
        }
        let f = token_flag(t);
        if f == Some('-') {
            i = i + 1;
            done = true;
        } else if f == Some('t') {
            if i + 1 >= args.len() {
                return Err(
                    ParseError::Command(
                        CommandError::MissingArgument { what: string_from("-t target") },
                    ),
                );
            }
            proof {
                assert(a[i + 1] == args@[i + 1]@);
            }
            let checked = check(&args[i + 1]);
            if let Err(e) = checked {
                return Err(ParseError::Target(e));
            }
            target = Some(args[i + 1].clone());
            i = i + 2;
        } else if f == Some('x') || f == Some('y') {
            let c = f.unwrap();
            if adjustment.is_some() {
                return Err(ParseError::Command(one_adjustment()));
            }
            if i + 1 >= args.len() {
                return Err(ParseError::Command(missing_flag_value(c)));
            }
            proof {
                assert(a[i + 1] == args@[i + 1]@);
            }
            match parse_u16_value(args[i + 1].as_str()) {
                None => {
                    return Err(
                        ParseError::Command(
                            CommandError::InvalidNumber {
                                command: string_from("resize-pane"),
                                flag: flag_text(c),
                                value: args[i + 1].clone(),
                            },
                        ),
                    );
                },
                Some(v) => {
                    if c == 'x' {
                        width = Some(v);
                    } else {
                        height = Some(v);
                    }
                },
            }
            i = i + 2;
        } else if f == Some('U') || f == Some('D') || f == Some('L') || f == Some('R') || f == Some(
            'Z',
        ) {
            let c = f.unwrap();
            if adjustment.is_some() || width.is_some() || height.is_some() {
                return Err(ParseError::Command(one_adjustment()));
            }
            if c == 'Z' {
                adjustment = Some(ResizePaneAdjustment::Zoom);
                i = i + 1;
            } else {
                match parse_resize_pane_delta(args, i + 1, c) {
                    Err(e) => {
                        return Err(ParseError::Command(e));
                    },
                    Ok((cells, j)) => {
                        adjustment = Some(direction_exec(c, cells));
                        i = j;
                    },
                }
            }
        } else {
            done = true;
        }
    }
    if i < args.len() {
        proof {
            assert(a[i as int] == args@[i as int]@);
        }
        return Err(
            ParseError::Command(
                CommandError::UnexpectedArgument {
                    command: string_from("resize-pane"),
                    argument: args[i].clone(),
                },
            ),
        );
    }
    let adjustment = match adjustment {
        Some(adj) => adj,
        None => match (width, height) {
            (Some(columns), Some(rows)) => ResizePaneAdjustment::AbsoluteSize { columns, rows },
            (Some(columns), None) => ResizePaneAdjustment::AbsoluteWidth { columns },
            (None, Some(rows)) => ResizePaneAdjustment::AbsoluteHeight { rows },
            (None, None) => ResizePaneAdjustment::NoOp,
        },
    };
    Ok(ResizePaneTokens { target, adjustment })
}


// ---------------------------------------------------------------------------
// select-layout
// ---------------------------------------------------------------------------

/// What `select-layout` is asked to do.
#[derive(Debug, Clone, Copy, PartialEq, Eq, Structural)]
pub enum SelectLayoutKind {
    /// Spread the panes out evenly (`-E`).
    Spread,
    /// Go back to the previous layout (`-o`).
    Old,
    /// Apply the layout named (or described) by the word given.
    Named,
}

/// The leading flags of a `select-layout` command line from token `i` on:
/// `-E`, `-o`, the raw target, and where they end.
pub open spec fn select_layout_loop<E>(
    args: Seq<Seq<char>>,
    i: int,
    chk: spec_fn(Seq<char>) -> Result<(), E>,
    spread: bool,
    old_layout: bool,
    target: Option<Seq<char>>,
) -> Result<(bool, bool, Option<Seq<char>>, int), ParseErrorView<E>>
    decreases args.len() - i,
{
    if i < 0 || i >= args.len() {
        Ok((spread, old_layout, target, i))
    } else {
        let f = single_flag(args[i]);
        if f == Some('-') {
            Ok((spread, old_layout, target, i + 1))
        } else if f == Some('E') {
            select_layout_loop(args, i + 1, chk, true, old_layout, target)
        } else if f == Some('o') {
            select_layout_loop(args, i + 1, chk, spread, true, target)
        } else if f == Some('t') {
            if i + 1 >= args.len() {
                Err(refused(CommandErrorView::MissingArgument("-t target"@)))
            } else if (f == Some('t')) && chk(args[i + 1]) is Err {
                Err(ParseErrorView::Target(chk(args[i + 1])->Err_0))
            } else {
                select_layout_loop(args, i + 2, chk, spread, old_layout, Some(args[i + 1]))
            }
        } else {
            Ok((spread, old_layout, target, i))
        }
    }
}

/// What a `select-layout` command line says: the raw target, what to do,
/// and (for a named layout) the layout word, which the caller reads as a
/// layout name or a layout description.
pub struct SelectLayoutTokens {
    pub target: Option<String>,
    pub kind: SelectLayoutKind,
    pub layout: Option<String>,
}

pub struct SelectLayoutTokensView {
    pub target: Option<Seq<char>>,
    pub kind: SelectLayoutKind,
    pub layout: Option<Seq<char>>,
}

impl SelectLayoutTokens {
    pub open spec fn view(&self) -> SelectLayoutTokensView {
        SelectLayoutTokensView {
            target: opt_view(self.target),
            kind: self.kind,
            layout: opt_view(self.layout),
        }
    }
}

/// A `select-layout` command line read: `-E` and `-o` exclude each other
/// and take no layout; otherwise the layout is required; nothing more may
/// follow.
pub open spec fn select_layout_spec<E>(
    args: Seq<Seq<char>>,
    chk: spec_fn(Seq<char>) -> Result<(), E>,
) -> Result<SelectLayoutTokensView, ParseErrorView<E>> {
    match select_layout_loop(args, 0, chk, false, false, None) {
        Err(e) => Err(e),
        Ok((spread, old_layout, target, i)) => if spread && old_layout {
            Err(refused(CommandErrorView::Refused("select-layout accepts only one of -E or -o"@)))
        } else if spread || old_layout {
            if i < args.len() {
                Err(refused(CommandErrorView::UnexpectedArgument("select-layout"@, args[i])))
            } else {
                Ok(
                    SelectLayoutTokensView {
                        target,
                        kind: if spread {
                            SelectLayoutKind::Spread
                        } else {
                            SelectLayoutKind::Old
                        },
                        layout: None,
                    },
                )
            }
        } else if i >= args.len() {
            Err(refused(CommandErrorView::MissingArgument("select-layout layout"@)))
        } else if i + 1 < args.len() {
            Err(refused(CommandErrorView::UnexpectedArgument("select-layout"@, args[i + 1])))
        } else {
            Ok(SelectLayoutTokensView { target, kind: SelectLayoutKind::Named, layout: Some(args[i]) })
        },
    }
}

/// Reads a `select-layout` command line. `check` checks each target
/// word where it is given, before the flag that follows it is read.
pub fn parse_select_layout_tokens<E, F: Fn(&String) -> Result<(), E>>(args: &[String], check: &F) -> (r: Result<
    SelectLayoutTokens,
    ParseError<E>,
>)
    requires
        forall|s: &String| check.requires((s,)),
    ensures
        forall|chk: spec_fn(Seq<char>) -> Result<(), E>|
            checks_targets(*check, chk) ==> match r {
                Ok(t) => select_layout_spec(string_views(args@), chk) == Ok::<SelectLayoutTokensView, ParseErrorView<E>>(t.view()),
                Err(e) => select_layout_spec(string_views(args@), chk) == Err::<SelectLayoutTokensView, ParseErrorView<E>>(
                    parse_error_view(e),
                ),
            },
{
    let ghost a = string_views(args@);
    let mut spread = false;
    let mut old_layout = false;
    let mut target: Option<String> = None;
    let mut i: usize = 0;
    let mut done = false;
    while i < args.len() && !done
        invariant
            i <= args@.len(),
            a == string_views(args@),
            forall|s: &String| check.requires((s,)),
            forall|chk: spec_fn(Seq<char>) -> Result<(), E>|
                checks_targets(*check, chk) ==> {
                    &&& !done ==> select_layout_loop(a, 0, chk, false, false, None) == select_layout_loop(
                        a,
                        i as int,
                        chk,
                        spread,
                        old_layout,
                        opt_view(target),
                    )
                    &&& done ==> select_layout_loop(a, 0, chk, false, false, None) == Ok::<
                        (bool, bool, Option<Seq<char>>, int),
                        ParseErrorView<E>,
                    >((spread, old_layout, opt_view(target), i as int))
                },
        decreases args.len() - i + (if done { 0int } else { 1int }),
    {
        proof {
            assert(a[i as int] == args@[i as int]@);
        }
        let f = token_flag(args[i].as_str());
        if f == Some('-') {
            i = i + 1;
            done = true;
        } else if f == Some('E') {
            spread = true;
            i = i + 1;
        } else if f == Some('o') {
            old_layout = true;
            i = i + 1;
        } else if f == Some('t') {
            if i + 1 >= args.len() {
                return Err(ParseError::Command(missing_value("-t target")));
            }
            proof {
                assert(a[i + 1] == args@[i + 1]@);
            }
            if f == Some('t') {
                let checked = check(&args[i + 1]);
                if let Err(e) = checked {
                    return Err(ParseError::Target(e));
                }
            }
            target = Some(args[i + 1].clone());
            i = i + 2;
        } else {
            done = true;
        }
    }
    if spread && old_layout {
        return Err(ParseError::Command(refusal("select-layout accepts only one of -E or -o")));
    }
    if spread || old_layout {
        if i < args.len() {
            proof {
                assert(a[i as int] == args@[i as int]@);
            }
            return Err(ParseError::Command(leftover("select-layout", &args[i])));
        }
        let kind = if spread {
            SelectLayoutKind::Spread
        } else {
            SelectLayoutKind::Old
        };
        return Ok(SelectLayoutTokens { target, kind, layout: None });
    }
    if i >= args.len() {
        return Err(ParseError::Command(missing_value("select-layout layout")));
    }
    proof {
        assert(a[i as int] == args@[i as int]@);
    }
    if args.len() - i > 1 {
        proof {
            assert(a[i + 1] == args@[i + 1]@);
        }
        return Err(ParseError::Command(leftover("select-layout", &args[i + 1])));
    }
    Ok(SelectLayoutTokens { target, kind: SelectLayoutKind::Named, layout: Some(args[i].clone()) })
}

// ---------------------------------------------------------------------------
// display-panes
// ---------------------------------------------------------------------------

/// The leading flags of a `display-panes` command line from token `i` on:
/// `-b`, `-N`, the `-d` duration in milliseconds, the raw target, and where
/// they end.
pub open spec fn display_panes_loop<E>(
    args: Seq<Seq<char>>,
    i: int,
    chk: spec_fn(Seq<char>) -> Result<(), E>,
    non_blocking: bool,
    no_command: bool,
    duration_ms: Option<u64>,
    target: Option<Seq<char>>,
) -> Result<(bool, bool, Option<u64>, Option<Seq<char>>, int), ParseErrorView<E>>
    decreases args.len() - i,
{
    if i < 0 || i >= args.len() {
        Ok((non_blocking, no_command, duration_ms, target, i))
    } else {
        let f = single_flag(args[i]);
        if f == Some('-') {
            Ok((non_blocking, no_command, duration_ms, target, i + 1))
        } else if f == Some('b') {
            display_panes_loop(args, i + 1, chk, true, no_command, duration_ms, target)
        } else if f == Some('N') {
            display_panes_loop(args, i + 1, chk, non_blocking, true, duration_ms, target)
        } else if f == Some('d') || f == Some('t') {
            if i + 1 >= args.len() {
                Err(refused(CommandErrorView::MissingArgument(
                        if f == Some('d') {
                            "-d duration"@
                        } else {
                            "-t target"@
                        },
                    )))
            } else if (f == Some('t')) && chk(args[i + 1]) is Err {
                Err(ParseErrorView::Target(chk(args[i + 1])->Err_0))
            } else if f == Some('t') {
                display_panes_loop(args, i + 2, chk, non_blocking, no_command, duration_ms, Some(args[i + 1]))
            } else {
                match parse_u64_spec(args[i + 1]) {
                    None => Err(refused(CommandErrorView::InvalidNumber("display-panes"@, "-d"@, args[i + 1]))),
                    Some(d) => display_panes_loop(args, i + 2, chk, non_blocking, no_command, Some(d), target),
                }
            }
        } else {
            Ok((non_blocking, no_command, duration_ms, target, i))
        }
    }
}

/// What a `display-panes` command line says: the raw target, the flags, and
/// the words of the template, for the caller to join.
pub struct DisplayPanesTokens {
    pub target: Option<String>,
    pub duration_ms: Option<u64>,
    pub non_blocking: bool,
    pub no_command: bool,
    pub template: Option<Vec<String>>,
}

pub struct DisplayPanesTokensView {
    pub target: Option<Seq<char>>,
    pub duration_ms: Option<u64>,
    pub non_blocking: bool,
    pub no_command: bool,
    pub template: Option<Seq<Seq<char>>>,
}

impl DisplayPanesTokens {
    pub open spec fn view(&self) -> DisplayPanesTokensView {
        DisplayPanesTokensView {
            target: opt_view(self.target),
            duration_ms: self.duration_ms,
            non_blocking: self.non_blocking,
            no_command: self.no_command,
            template: opt_list_view(self.template),
        }
    }
}

/// A `display-panes` command line read.
pub open spec fn display_panes_spec<E>(
    args: Seq<Seq<char>>,
    chk: spec_fn(Seq<char>) -> Result<(), E>,
) -> Result<DisplayPanesTokensView, ParseErrorView<E>> {
    match display_panes_loop(args, 0, chk, false, false, None, None) {
        Err(e) => Err(e),
        Ok((non_blocking, no_command, duration_ms, target, i)) => Ok(
            DisplayPanesTokensView {
                target,
                duration_ms,
                non_blocking,
                no_command,
                template: trailing_words_spec(args, i),
            },
        ),
    }
}

/// Reads a `display-panes` command line. `check` checks each target
/// word where it is given, before the flag that follows it is read.
pub fn parse_display_panes_tokens<E, F: Fn(&String) -> Result<(), E>>(args: &[String], check: &F) -> (r: Result<
    DisplayPanesTokens,
    ParseError<E>,
>)
    requires
        forall|s: &String| check.requires((s,)),
    ensures
        forall|chk: spec_fn(Seq<char>) -> Result<(), E>|
            checks_targets(*check, chk) ==> match r {
                Ok(t) => display_panes_spec(string_views(args@), chk) == Ok::<DisplayPanesTokensView, ParseErrorView<E>>(t.view()),
                Err(e) => display_panes_spec(string_views(args@), chk) == Err::<DisplayPanesTokensView, ParseErrorView<E>>(
                    parse_error_view(e),
                ),
            },
{
    let ghost a = string_views(args@);
    let mut non_blocking = false;
    let mut no_command = false;
    let mut duration_ms: Option<u64> = None;
    let mut target: Option<String> = None;
    let mut i: usize = 0;
    let mut done = false;
    while i < args.len() && !done
        invariant
            i <= args@.len(),
            a == string_views(args@),
            forall|s: &String| check.requires((s,)),
            forall|chk: spec_fn(Seq<char>) -> Result<(), E>|
                checks_targets(*check, chk) ==> {
                    &&& !done ==> display_panes_loop(a, 0, chk, false, false, None, None) == display_panes_loop(
                        a,
                        i as int,
                        chk,
                        non_blocking,
                        no_command,
                        duration_ms,
                        opt_view(target),
                    )
                    &&& done ==> display_panes_loop(a, 0, chk, false, false, None, None) == Ok::<
                        (bool, bool, Option<u64>, Option<Seq<char>>, int),
                        ParseErrorView<E>,
                    >((non_blocking, no_command, duration_ms, opt_view(target), i as int))
                },
        decreases args.len() - i + (if done { 0int } else { 1int }),
    {
        proof {
            assert(a[i as int] == args@[i as int]@);
        }
        let f = token_flag(args[i].as_str());
        if f == Some('-') {
            i = i + 1;
            done = true;
        } else if f == Some('b') {
            non_blocking = true;
            i = i + 1;
        } else if f == Some('N') {
            no_command = true;
            i = i + 1;
        } else if f == Some('d') || f == Some('t') {
            if i + 1 >= args.len() {
                return Err(ParseError::Command(if f == Some('d') {
                        missing_value("-d duration")
                    } else {
                        missing_value("-t target")
                    }));
            }
            proof {
                assert(a[i + 1] == args@[i + 1]@);
            }
            if f == Some('t') {
                let checked = check(&args[i + 1]);
                if let Err(e) = checked {
                    return Err(ParseError::Target(e));
                }
            }
            if f == Some('t') {
                target = Some(args[i + 1].clone());
            } else {
                match parse_u64_value(args[i + 1].as_str()) {
                    None => {
                        return Err(ParseError::Command(CommandError::InvalidNumber {
                                command: string_from("display-panes"),
                                flag: string_from("-d"),
                                value: args[i + 1].clone(),
                            }));
                    },
                    Some(d) => {
                        duration_ms = Some(d);
                    },
                }
            }
            i = i + 2;
        } else {
            done = true;
        }
    }
    let template = trailing_words(args, i);
    Ok(DisplayPanesTokens { target, duration_ms, non_blocking, no_command, template })
}

} // verus!
