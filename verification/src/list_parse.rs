use vstd::prelude::*;

use crate::config_parse::{
    checks_targets, error_view, opt_view, parse_error_view, refused, single_flag,
    starts_with_dash, token_flag, token_starts_with_dash, CommandError, CommandErrorView,
    ParseError, ParseErrorView,
};
use crate::pane_parse::{leftover, missing_value};
use crate::session_parse::unsupported;
use crate::source_files::string_views;

verus! {

// ---------------------------------------------------------------------------
// list-sessions
// ---------------------------------------------------------------------------

/// The flags of a `list-sessions` command line read so far.
pub struct ListSessionsState {
    pub reversed: bool,
    pub format: Option<Seq<char>>,
    pub filter: Option<Seq<char>>,
    pub sort_order: Option<Seq<char>>,
}

pub open spec fn list_sessions_initial() -> ListSessionsState {
    ListSessionsState { reversed: false, format: None, filter: None, sort_order: None }
}

/// A `list-sessions` command line from token `i` on: every word is a flag; another
/// word that starts with `-` is an unsupported flag, and any other word is
/// refused.
pub open spec fn list_sessions_loop(
    args: Seq<Seq<char>>,
    i: int,
    st: ListSessionsState,
) -> Result<ListSessionsState, CommandErrorView>
    decreases args.len() - i,
{
    if i < 0 || i >= args.len() {
        Ok(st)
    } else {
        let f = single_flag(args[i]);
        if f == Some('r') {
            list_sessions_loop(args, i + 1, ListSessionsState { reversed: true, ..st })
        } else if f == Some('F') {
            if i + 1 >= args.len() {
                Err(CommandErrorView::MissingArgument("-F format"@))
            } else {
                list_sessions_loop(args, i + 2, ListSessionsState { format: Some(args[i + 1]), ..st })
            }
        } else if f == Some('f') {
            if i + 1 >= args.len() {
                Err(CommandErrorView::MissingArgument("-f filter"@))
            } else {
                list_sessions_loop(args, i + 2, ListSessionsState { filter: Some(args[i + 1]), ..st })
            }
        } else if f == Some('O') {
            if i + 1 >= args.len() {
                Err(CommandErrorView::MissingArgument("-O sort-order"@))
            } else {
                list_sessions_loop(args, i + 2, ListSessionsState { sort_order: Some(args[i + 1]), ..st })
            }
        } else if starts_with_dash(args[i]) {
            Err(CommandErrorView::UnsupportedFlag("list-sessions"@, args[i]))
        } else {
            Err(CommandErrorView::UnexpectedArgument("list-sessions"@, args[i]))
        }
    }
}

/// What a `list-sessions` command line says.
pub struct ListSessionsTokens {
    pub reversed: bool,
    pub format: Option<String>,
    pub filter: Option<String>,
    pub sort_order: Option<String>,
}

pub struct ListSessionsTokensView {
    pub reversed: bool,
    pub format: Option<Seq<char>>,
    pub filter: Option<Seq<char>>,
    pub sort_order: Option<Seq<char>>,
}

impl ListSessionsTokens {
    pub open spec fn view(&self) -> ListSessionsTokensView {
        ListSessionsTokensView {
            reversed: self.reversed,
            format: opt_view(self.format),
            filter: opt_view(self.filter),
            sort_order: opt_view(self.sort_order),
        }
    }
}

/// A `list-sessions` command line read.
pub open spec fn list_sessions_spec(args: Seq<Seq<char>>) -> Result<ListSessionsTokensView, CommandErrorView> {
    match list_sessions_loop(args, 0, list_sessions_initial()) {
        Err(e) => Err(e),
        Ok(st) => Ok(
            ListSessionsTokensView {
                reversed: st.reversed,
                format: st.format,
                filter: st.filter,
                sort_order: st.sort_order,
            },
        ),
    }
}

/// Reads a `list-sessions` command line.
pub fn parse_list_sessions_tokens(args: &[String]) -> (r: Result<ListSessionsTokens, CommandError>)
    ensures
        match r {
            Ok(t) => list_sessions_spec(string_views(args@)) == Ok::<ListSessionsTokensView, CommandErrorView>(
                t.view(),
            ),
            Err(e) => list_sessions_spec(string_views(args@)) == Err::<ListSessionsTokensView, CommandErrorView>(
                error_view(e),
            ),
        },
{
    let ghost a = string_views(args@);
    let mut reversed: bool = false;
    let mut format: Option<String> = None;
    let mut filter: Option<String> = None;
    let mut sort_order: Option<String> = None;
    let mut i: usize = 0;
    while i < args.len()
        invariant
            i <= args@.len(),
            a == string_views(args@),
            list_sessions_loop(a, 0, list_sessions_initial()) == list_sessions_loop(
                a,
                i as int,
                ListSessionsState { reversed, format: opt_view(format), filter: opt_view(filter), sort_order: opt_view(sort_order) },
            ),
        decreases args.len() - i,
    {
        proof {
            assert(a[i as int] == args@[i as int]@);
        }
        let f = token_flag(args[i].as_str());
        if f == Some('r') {
            reversed = true;
            i = i + 1;
        } else if f == Some('F') {
            if i + 1 >= args.len() {
                return Err(missing_value("-F format"));
            }
            proof {
                assert(a[i + 1] == args@[i + 1]@);
            }
            format = Some(args[i + 1].clone());
            i = i + 2;
        } else if f == Some('f') {
            if i + 1 >= args.len() {
                return Err(missing_value("-f filter"));
            }
            proof {
                assert(a[i + 1] == args@[i + 1]@);
            }
            filter = Some(args[i + 1].clone());
            i = i + 2;
        } else if f == Some('O') {
            if i + 1 >= args.len() {
                return Err(missing_value("-O sort-order"));
            }
            proof {
                assert(a[i + 1] == args@[i + 1]@);
            }
            sort_order = Some(args[i + 1].clone());
            i = i + 2;
        } else if token_starts_with_dash(args[i].as_str()) {
            return Err(unsupported("list-sessions", &args[i]));
        } else {
            return Err(leftover("list-sessions", &args[i]));
        }
    }
    Ok(ListSessionsTokens { reversed, format, filter, sort_order })
}

// ---------------------------------------------------------------------------
// list-windows
// ---------------------------------------------------------------------------

/// The flags of a `list-windows` command line read so far.
pub struct ListWindowsState {
    pub target: Option<Seq<char>>,
    pub format: Option<Seq<char>>,
}

pub open spec fn list_windows_initial() -> ListWindowsState {
    ListWindowsState { target: None, format: None }
}

/// A `list-windows` command line from token `i` on: every word is a flag; another
/// word that starts with `-` is an unsupported flag, and any other word is
/// refused. A target word
/// that `chk` refuses stops them with its error.
pub open spec fn list_windows_loop<E>(
    args: Seq<Seq<char>>,
    i: int,
    chk: spec_fn(Seq<char>) -> Result<(), E>,
    st: ListWindowsState,
) -> Result<ListWindowsState, ParseErrorView<E>>
    decreases args.len() - i,
{
    if i < 0 || i >= args.len() {
        Ok(st)
    } else {
        let f = single_flag(args[i]);
        if f == Some('t') {
            if i + 1 >= args.len() {
                Err(refused(CommandErrorView::MissingArgument("-t target"@)))
            } else if chk(args[i + 1]) is Err {
                Err(ParseErrorView::Target(chk(args[i + 1])->Err_0))
            } else {
                list_windows_loop(args, i + 2, chk, ListWindowsState { target: Some(args[i + 1]), ..st })
            }
        } else if f == Some('F') {
            if i + 1 >= args.len() {
                Err(refused(CommandErrorView::MissingArgument("-F format"@)))
            } else {
                list_windows_loop(args, i + 2, chk, ListWindowsState { format: Some(args[i + 1]), ..st })
            }
        } else if starts_with_dash(args[i]) {
            Err(refused(CommandErrorView::UnsupportedFlag("list-windows"@, args[i])))
        } else {
            Err(refused(CommandErrorView::UnexpectedArgument("list-windows"@, args[i])))
        }
    }
}

/// What a `list-windows` command line says. The target (required) is returned as written.
pub struct ListWindowsTokens {
    pub target: String,
    pub format: Option<String>,
}

pub struct ListWindowsTokensView {
    pub target: Seq<char>,
    pub format: Option<Seq<char>>,
}

impl ListWindowsTokens {
    pub open spec fn view(&self) -> ListWindowsTokensView {
        ListWindowsTokensView {
            target: self.target@,
            format: opt_view(self.format),
        }
    }
}

/// A `list-windows` command line read; `-t` is required. `chk` is the check of a
/// target word.
pub open spec fn list_windows_spec<E>(
    args: Seq<Seq<char>>,
    chk: spec_fn(Seq<char>) -> Result<(), E>,
) -> Result<ListWindowsTokensView, ParseErrorView<E>> {
    match list_windows_loop(args, 0, chk, list_windows_initial()) {
        Err(e) => Err(e),
        Ok(st) => match st.target {
            None => Err(refused(CommandErrorView::MissingArgument("-t target"@))),
            Some(t) => Ok(
                ListWindowsTokensView {
                    target: t,
                    format: st.format,
                },
            ),
        },
    }
}

/// Reads a `list-windows` command line. `check` checks each target word where it
/// is given.
pub fn parse_list_windows_tokens<E, F: Fn(&String) -> Result<(), E>>(args: &[String], check: &F) -> (r: Result<
    ListWindowsTokens,
    ParseError<E>,
>)
    requires
        forall|s: &String| check.requires((s,)),
    ensures
        forall|chk: spec_fn(Seq<char>) -> Result<(), E>|
            checks_targets(*check, chk) ==> match r {
                Ok(t) => list_windows_spec(string_views(args@), chk) == Ok::<ListWindowsTokensView, ParseErrorView<E>>(
                    t.view(),
                ),
                Err(e) => list_windows_spec(string_views(args@), chk) == Err::<
                    ListWindowsTokensView,
                    ParseErrorView<E>,
                >(parse_error_view(e)),
            },
{
    let ghost a = string_views(args@);
    let mut target: Option<String> = None;
    let mut format: Option<String> = None;
    let mut i: usize = 0;
    while i < args.len()
        invariant
            i <= args@.len(),
            a == string_views(args@),
            forall|s: &String| check.requires((s,)),
            forall|chk: spec_fn(Seq<char>) -> Result<(), E>|
                checks_targets(*check, chk) ==> list_windows_loop(a, 0, chk, list_windows_initial()) == list_windows_loop(
                    a,
                    i as int,
                    chk,
                    ListWindowsState { target: opt_view(target), format: opt_view(format) },
                ),
        decreases args.len() - i,
    {
        proof {
            assert(a[i as int] == args@[i as int]@);
        }
        let f = token_flag(args[i].as_str());
        if f == Some('t') {
            if i + 1 >= args.len() {
                return Err(ParseError::Command(missing_value("-t target")));
            }
            proof {
                assert(a[i + 1] == args@[i + 1]@);
            }
            let checked = check(&args[i + 1]);
            if let Err(e) = checked {
                return Err(ParseError::Target(e));
            }
            target = Some(args[i + 1].clone());
            i = i + 2;
        } else if f == Some('F') {
            if i + 1 >= args.len() {
                return Err(ParseError::Command(missing_value("-F format")));
            }
            proof {
                assert(a[i + 1] == args@[i + 1]@);
            }
            format = Some(args[i + 1].clone());
            i = i + 2;
        } else if token_starts_with_dash(args[i].as_str()) {
            return Err(ParseError::Command(unsupported("list-windows", &args[i])));
        } else {
            return Err(ParseError::Command(leftover("list-windows", &args[i])));
        }
    }
    match target {
        None => Err(ParseError::Command(missing_value("-t target"))),
        Some(target) => Ok(ListWindowsTokens { target, format }),
    }
}

// ---------------------------------------------------------------------------
// list-panes
// ---------------------------------------------------------------------------

/// The flags of a `list-panes` command line read so far.
pub struct ListPanesState {
    pub target: Option<Seq<char>>,
    pub format: Option<Seq<char>>,
}

pub open spec fn list_panes_initial() -> ListPanesState {
    ListPanesState { target: None, format: None }
}

/// A `list-panes` command line from token `i` on: every word is a flag; another
/// word that starts with `-` is an unsupported flag, and any other word is
/// refused. A target word
/// that `chk` refuses stops them with its error.
pub open spec fn list_panes_loop<E>(
    args: Seq<Seq<char>>,
    i: int,
    chk: spec_fn(Seq<char>) -> Result<(), E>,
    st: ListPanesState,
) -> Result<ListPanesState, ParseErrorView<E>>
    decreases args.len() - i,
{
    if i < 0 || i >= args.len() {
        Ok(st)
    } else {
        let f = single_flag(args[i]);
        if f == Some('t') {
            if i + 1 >= args.len() {
                Err(refused(CommandErrorView::MissingArgument("-t target"@)))
            } else if chk(args[i + 1]) is Err {
                Err(ParseErrorView::Target(chk(args[i + 1])->Err_0))
            } else {
                list_panes_loop(args, i + 2, chk, ListPanesState { target: Some(args[i + 1]), ..st })
            }
        } else if f == Some('F') {
            if i + 1 >= args.len() {
                Err(refused(CommandErrorView::MissingArgument("-F format"@)))
            } else {
                list_panes_loop(args, i + 2, chk, ListPanesState { format: Some(args[i + 1]), ..st })
            }
        } else if starts_with_dash(args[i]) {
            Err(refused(CommandErrorView::UnsupportedFlag("list-panes"@, args[i])))
        } else {
            Err(refused(CommandErrorView::UnexpectedArgument("list-panes"@, args[i])))
        }
    }
}

/// What a `list-panes` command line says. The target is returned as written.
pub struct ListPanesTokens {
    pub target: Option<String>,
    pub format: Option<String>,
}

pub struct ListPanesTokensView {
    pub target: Option<Seq<char>>,
    pub format: Option<Seq<char>>,
}

impl ListPanesTokens {
    pub open spec fn view(&self) -> ListPanesTokensView {
        ListPanesTokensView {
            target: opt_view(self.target),
            format: opt_view(self.format),
        }
    }
}

/// A `list-panes` command line read. `chk` is the check of a
/// target word.
pub open spec fn list_panes_spec<E>(
    args: Seq<Seq<char>>,
    chk: spec_fn(Seq<char>) -> Result<(), E>,
) -> Result<ListPanesTokensView, ParseErrorView<E>> {
    match list_panes_loop(args, 0, chk, list_panes_initial()) {
        Err(e) => Err(e),
        Ok(st) => Ok(
            ListPanesTokensView {
                target: st.target,
                format: st.format,
            },
        ),
    }
}

/// Reads a `list-panes` command line. `check` checks each target word where it
/// is given.
pub fn parse_list_panes_tokens<E, F: Fn(&String) -> Result<(), E>>(args: &[String], check: &F) -> (r: Result<
    ListPanesTokens,
    ParseError<E>,
>)
    requires
        forall|s: &String| check.requires((s,)),
    ensures
        forall|chk: spec_fn(Seq<char>) -> Result<(), E>|
            checks_targets(*check, chk) ==> match r {
                Ok(t) => list_panes_spec(string_views(args@), chk) == Ok::<ListPanesTokensView, ParseErrorView<E>>(
                    t.view(),
                ),
                Err(e) => list_panes_spec(string_views(args@), chk) == Err::<
                    ListPanesTokensView,
                    ParseErrorView<E>,
                >(parse_error_view(e)),
            },
{
    let ghost a = string_views(args@);
    let mut target: Option<String> = None;
    let mut format: Option<String> = None;
    let mut i: usize = 0;
    while i < args.len()
        invariant
            i <= args@.len(),
            a == string_views(args@),
            forall|s: &String| check.requires((s,)),
            forall|chk: spec_fn(Seq<char>) -> Result<(), E>|
                checks_targets(*check, chk) ==> list_panes_loop(a, 0, chk, list_panes_initial()) == list_panes_loop(
                    a,
                    i as int,
                    chk,
                    ListPanesState { target: opt_view(target), format: opt_view(format) },
                ),
        decreases args.len() - i,
    {
        proof {
            assert(a[i as int] == args@[i as int]@);
        }
        let f = token_flag(args[i].as_str());
        if f == Some('t') {
            if i + 1 >= args.len() {
                return Err(ParseError::Command(missing_value("-t target")));
            }
            proof {
                assert(a[i + 1] == args@[i + 1]@);
            }
            let checked = check(&args[i + 1]);
            if let Err(e) = checked {
                return Err(ParseError::Target(e));
            }
            target = Some(args[i + 1].clone());
            i = i + 2;
        } else if f == Some('F') {
            if i + 1 >= args.len() {
                return Err(ParseError::Command(missing_value("-F format")));
            }
            proof {
                assert(a[i + 1] == args@[i + 1]@);
            }
            format = Some(args[i + 1].clone());
            i = i + 2;
        } else if token_starts_with_dash(args[i].as_str()) {
            return Err(ParseError::Command(unsupported("list-panes", &args[i])));
        } else {
            return Err(ParseError::Command(leftover("list-panes", &args[i])));
        }
    }
    Ok(ListPanesTokens { target, format })
}

// ---------------------------------------------------------------------------
// show-messages
// ---------------------------------------------------------------------------

/// The flags of a `show-messages` command line read so far.
pub struct ShowMessagesState {
    pub jobs: bool,
    pub terminals: bool,
    pub target_client: Option<Seq<char>>,
}

pub open spec fn show_messages_initial() -> ShowMessagesState {
    ShowMessagesState { jobs: false, terminals: false, target_client: None }
}

/// A `show-messages` command line from token `i` on: every word is a flag; another
/// word that starts with `-` is an unsupported flag, and any other word is
/// refused.
pub open spec fn show_messages_loop(
    args: Seq<Seq<char>>,
    i: int,
    st: ShowMessagesState,
) -> Result<ShowMessagesState, CommandErrorView>
    decreases args.len() - i,
{
    if i < 0 || i >= args.len() {
        Ok(st)
    } else {
        let f = single_flag(args[i]);
        if f == Some('J') {
            show_messages_loop(args, i + 1, ShowMessagesState { jobs: true, ..st })
        } else if f == Some('T') {
            show_messages_loop(args, i + 1, ShowMessagesState { terminals: true, ..st })
        } else if f == Some('t') {
            if i + 1 >= args.len() {
                Err(CommandErrorView::MissingArgument("-t target-client"@))
            } else {
                show_messages_loop(args, i + 2, ShowMessagesState { target_client: Some(args[i + 1]), ..st })
            }
        } else if starts_with_dash(args[i]) {
            Err(CommandErrorView::UnsupportedFlag("show-messages"@, args[i]))
        } else {
            Err(CommandErrorView::UnexpectedArgument("show-messages"@, args[i]))
        }
    }
}

/// What a `show-messages` command line says.
pub struct ShowMessagesTokens {
    pub jobs: bool,
    pub terminals: bool,
    pub target_client: Option<String>,
}

pub struct ShowMessagesTokensView {
    pub jobs: bool,
    pub terminals: bool,
    pub target_client: Option<Seq<char>>,
}

impl ShowMessagesTokens {
    pub open spec fn view(&self) -> ShowMessagesTokensView {
        ShowMessagesTokensView {
            jobs: self.jobs,
            terminals: self.terminals,
            target_client: opt_view(self.target_client),
        }
    }
}

/// A `show-messages` command line read.
pub open spec fn show_messages_spec(args: Seq<Seq<char>>) -> Result<ShowMessagesTokensView, CommandErrorView> {
    match show_messages_loop(args, 0, show_messages_initial()) {
        Err(e) => Err(e),
        Ok(st) => Ok(
            ShowMessagesTokensView {
                jobs: st.jobs,
                terminals: st.terminals,
                target_client: st.target_client,
            },
        ),
    }
}

/// Reads a `show-messages` command line.
pub fn parse_show_messages_tokens(args: &[String]) -> (r: Result<ShowMessagesTokens, CommandError>)
    ensures
        match r {
            Ok(t) => show_messages_spec(string_views(args@)) == Ok::<ShowMessagesTokensView, CommandErrorView>(
                t.view(),
            ),
            Err(e) => show_messages_spec(string_views(args@)) == Err::<ShowMessagesTokensView, CommandErrorView>(
                error_view(e),
            ),
        },
{
    let ghost a = string_views(args@);
    let mut jobs: bool = false;
    let mut terminals: bool = false;
    let mut target_client: Option<String> = None;
    let mut i: usize = 0;
    while i < args.len()
        invariant
            i <= args@.len(),
            a == string_views(args@),
            show_messages_loop(a, 0, show_messages_initial()) == show_messages_loop(
                a,
                i as int,
                ShowMessagesState { jobs, terminals, target_client: opt_view(target_client) },
            ),
        decreases args.len() - i,
    {
        proof {
            assert(a[i as int] == args@[i as int]@);
        }
        let f = token_flag(args[i].as_str());
        if f == Some('J') {
            jobs = true;
            i = i + 1;
        } else if f == Some('T') {
            terminals = true;
            i = i + 1;
        } else if f == Some('t') {
            if i + 1 >= args.len() {
                return Err(missing_value("-t target-client"));
            }
            proof {
                assert(a[i + 1] == args@[i + 1]@);
            }
            target_client = Some(args[i + 1].clone());
            i = i + 2;
        } else if token_starts_with_dash(args[i].as_str()) {
            return Err(unsupported("show-messages", &args[i]));
        } else {
            return Err(leftover("show-messages", &args[i]));
        }
    }
    Ok(ShowMessagesTokens { jobs, terminals, target_client })
}

// ---------------------------------------------------------------------------
// clear-history
// ---------------------------------------------------------------------------

/// The flags of a `clear-history` command line read so far.
pub struct ClearHistoryState {
    pub reset_hyperlinks: bool,
    pub target: Option<Seq<char>>,
}

pub open spec fn clear_history_initial() -> ClearHistoryState {
    ClearHistoryState { reset_hyperlinks: false, target: None }
}

/// A `clear-history` command line from token `i` on: every word is a flag; another
/// word that starts with `-` is an unsupported flag, and any other word is
/// refused. A target word
/// that `chk` refuses stops them with its error.
pub open spec fn clear_history_loop<E>(
    args: Seq<Seq<char>>,
    i: int,
    chk: spec_fn(Seq<char>) -> Result<(), E>,
    st: ClearHistoryState,
) -> Result<ClearHistoryState, ParseErrorView<E>>
    decreases args.len() - i,
{
    if i < 0 || i >= args.len() {
        Ok(st)
    } else {
        let f = single_flag(args[i]);
        if f == Some('H') {
            clear_history_loop(args, i + 1, chk, ClearHistoryState { reset_hyperlinks: true, ..st })
        } else if f == Some('t') {
            if i + 1 >= args.len() {
                Err(refused(CommandErrorView::MissingArgument("-t target"@)))
            } else if chk(args[i + 1]) is Err {
                Err(ParseErrorView::Target(chk(args[i + 1])->Err_0))
            } else {
                clear_history_loop(args, i + 2, chk, ClearHistoryState { target: Some(args[i + 1]), ..st })
            }
        } else if starts_with_dash(args[i]) {
            Err(refused(CommandErrorView::UnsupportedFlag("clear-history"@, args[i])))
        } else {
            Err(refused(CommandErrorView::UnexpectedArgument("clear-history"@, args[i])))
        }
    }
}

/// What a `clear-history` command line says. The target (required) is returned as written.
pub struct ClearHistoryTokens {
    pub reset_hyperlinks: bool,
    pub target: String,
}

pub struct ClearHistoryTokensView {
    pub reset_hyperlinks: bool,
    pub target: Seq<char>,
}

impl ClearHistoryTokens {
    pub open spec fn view(&self) -> ClearHistoryTokensView {
        ClearHistoryTokensView {
            reset_hyperlinks: self.reset_hyperlinks,
            target: self.target@,
        }
    }
}

/// A `clear-history` command line read; `-t` is required. `chk` is the check of a
/// target word.
pub open spec fn clear_history_spec<E>(
    args: Seq<Seq<char>>,
    chk: spec_fn(Seq<char>) -> Result<(), E>,
) -> Result<ClearHistoryTokensView, ParseErrorView<E>> {
    match clear_history_loop(args, 0, chk, clear_history_initial()) {
        Err(e) => Err(e),
        Ok(st) => match st.target {
            None => Err(refused(CommandErrorView::MissingArgument("-t target"@))),
            Some(t) => Ok(
                ClearHistoryTokensView {
                    reset_hyperlinks: st.reset_hyperlinks,
                    target: t,
                },
            ),
        },
    }
}

/// Reads a `clear-history` command line. `check` checks each target word where it
/// is given.
pub fn parse_clear_history_tokens<E, F: Fn(&String) -> Result<(), E>>(args: &[String], check: &F) -> (r: Result<
    ClearHistoryTokens,
    ParseError<E>,
>)
    requires
        forall|s: &String| check.requires((s,)),
    ensures
        forall|chk: spec_fn(Seq<char>) -> Result<(), E>|
            checks_targets(*check, chk) ==> match r {
                Ok(t) => clear_history_spec(string_views(args@), chk) == Ok::<ClearHistoryTokensView, ParseErrorView<E>>(
                    t.view(),
                ),
                Err(e) => clear_history_spec(string_views(args@), chk) == Err::<
                    ClearHistoryTokensView,
                    ParseErrorView<E>,
                >(parse_error_view(e)),
            },
{
    let ghost a = string_views(args@);
    let mut reset_hyperlinks: bool = false;
    let mut target: Option<String> = None;
    let mut i: usize = 0;
    while i < args.len()
        invariant
            i <= args@.len(),
            a == string_views(args@),
            forall|s: &String| check.requires((s,)),
            forall|chk: spec_fn(Seq<char>) -> Result<(), E>|
                checks_targets(*check, chk) ==> clear_history_loop(a, 0, chk, clear_history_initial()) == clear_history_loop(
                    a,
                    i as int,
                    chk,
                    ClearHistoryState { reset_hyperlinks, target: opt_view(target) },
                ),
        decreases args.len() - i,
    {
        proof {
            assert(a[i as int] == args@[i as int]@);
        }
        let f = token_flag(args[i].as_str());
        if f == Some('H') {
            reset_hyperlinks = true;
            i = i + 1;
        } else if f == Some('t') {
            if i + 1 >= args.len() {
                return Err(ParseError::Command(missing_value("-t target")));
            }
            proof {
                assert(a[i + 1] == args@[i + 1]@);
            }
            let checked = check(&args[i + 1]);
            if let Err(e) = checked {
                return Err(ParseError::Target(e));
            }
            target = Some(args[i + 1].clone());
            i = i + 2;
        } else if token_starts_with_dash(args[i].as_str()) {
            return Err(ParseError::Command(unsupported("clear-history", &args[i])));
        } else {
            return Err(ParseError::Command(leftover("clear-history", &args[i])));
        }
    }
    match target {
        None => Err(ParseError::Command(missing_value("-t target"))),
        Some(target) => Ok(ClearHistoryTokens { reset_hyperlinks, target }),
    }
}

} // verus!
