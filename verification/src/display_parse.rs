use vstd::prelude::*;

use crate::config_parse::{
    checks_targets, parse_error_view, refused, ParseError, ParseErrorView, error_view, opt_view, parse_i64_spec, parse_i64_value, single_flag, starts_with_dash,
    string_from, token_flag, token_starts_with_dash, CommandError, CommandErrorView,
};
use crate::pane_parse::{leftover, missing_value, trailing_words};
use crate::session_parse::unsupported;
use crate::source_files::string_views;
use crate::text::{join, str_eq, str_views};

verus! {

/// The format variables that `display-message -a` lists, in order.
pub open spec fn display_all_formats() -> Seq<Seq<char>> {
    seq![
        "active_window_index"@,
        "alternate_on"@,
        "alternate_saved_x"@,
        "alternate_saved_y"@,
        "buffer_mode_format"@,
        "client_mode_format"@,
        "config_files"@,
        "cursor_character"@,
        "cursor_flag"@,
        "cursor_x"@,
        "cursor_y"@,
        "history_all_bytes"@,
        "history_bytes"@,
        "history_limit"@,
        "history_size"@,
        "host"@,
        "host_short"@,
        "insert_flag"@,
        "keypad_cursor_flag"@,
        "keypad_flag"@,
        "last_window_index"@,
        "mouse_all_flag"@,
        "mouse_any_flag"@,
        "mouse_button_flag"@,
        "mouse_sgr_flag"@,
        "mouse_standard_flag"@,
        "mouse_utf8_flag"@,
        "next_session_id"@,
        "origin_flag"@,
        "pane_active"@,
        "pane_at_bottom"@,
        "pane_at_left"@,
        "pane_at_right"@,
        "pane_at_top"@,
        "pane_bg"@,
        "pane_bottom"@,
        "pane_current_command"@,
        "pane_current_path"@,
        "pane_dead"@,
        "pane_fg"@,
        "pane_format"@,
        "pane_height"@,
        "pane_id"@,
        "pane_in_mode"@,
        "pane_index"@,
        "pane_input_off"@,
        "pane_last"@,
        "pane_left"@,
        "pane_marked"@,
        "pane_marked_set"@,
        "pane_path"@,
        "pane_pid"@,
        "pane_pipe"@,
        "pane_right"@,
        "pane_search_string"@,
        "pane_start_command"@,
        "pane_start_path"@,
        "pane_synchronized"@,
        "pane_tabs"@,
        "pane_title"@,
        "pane_top"@,
        "pane_tty"@,
        "pane_unseen_changes"@,
        "pane_width"@,
        "pid"@,
        "scroll_region_lower"@,
        "scroll_region_upper"@,
        "server_sessions"@,
        "session_activity"@,
        "session_alerts"@,
        "session_attached"@,
        "session_created"@,
        "session_format"@,
        "session_grouped"@,
        "session_id"@,
        "session_last_attached"@,
        "session_many_attached"@,
        "session_marked"@,
        "session_name"@,
        "session_path"@,
        "session_stack"@,
        "session_windows"@,
        "socket_path"@,
        "start_time"@,
        "tree_mode_format"@,
        "uid"@,
        "user"@,
        "version"@,
        "window_active"@,
        "window_active_clients"@,
        "window_active_sessions"@,
        "window_active_sessions_list"@,
        "window_activity"@,
        "window_activity_flag"@,
        "window_bell_flag"@,
        "window_cell_height"@,
        "window_cell_width"@,
        "window_end_flag"@,
        "window_flags"@,
        "window_format"@,
        "window_height"@,
        "window_id"@,
        "window_index"@,
        "window_last_flag"@,
        "window_layout"@,
        "window_linked"@,
        "window_linked_sessions"@,
        "window_linked_sessions_list"@,
        "window_marked_flag"@,
        "window_name"@,
        "window_panes"@,
        "window_raw_flags"@,
        "window_silence_flag"@,
        "window_stack_index"@,
        "window_start_flag"@,
        "window_visible_layout"@,
        "window_width"@,
        "window_zoomed_flag"@,
        "wrap_flag"@,
        "command"@,
    ]
}

/// The line that lists one format variable: `name=#{name}`, except for
/// `session_last_attached`, which shows `0` when it is unset.
pub open spec fn format_line(name: Seq<char>) -> Seq<char> {
    if name == "session_last_attached"@ {
        name + "=#{?"@ + name + ",#{"@ + name + "},0}"@
    } else {
        name + "=#{"@ + name + "}"@
    }
}

/// The template that `display-message -a` expands: one line per variable.
pub open spec fn display_all_formats_template_spec() -> Seq<char> {
    join(display_all_formats().map_values(|name: Seq<char>| format_line(name)), "\n"@)
}

fn format_line_string(name: &str) -> (r: String)
    ensures
        r@ == format_line(name@),
{
    let mut line = String::from_str(name);
    if str_eq(name, "session_last_attached") {
        line.append("=#{?");
        line.append(name);
        line.append(",#{");
        line.append(name);
        line.append("},0}");
    } else {
        line.append("=#{");
        line.append(name);
        line.append("}");
    }
    line
}

/// Builds the template that `display-message -a` expands.
pub fn display_all_formats_template() -> (r: String)
    ensures
        r@ == display_all_formats_template_spec(),
{
    let names: Vec<&str> = vec![
        "active_window_index",
        "alternate_on",
        "alternate_saved_x",
        "alternate_saved_y",
        "buffer_mode_format",
        "client_mode_format",
        "config_files",
        "cursor_character",
        "cursor_flag",
        "cursor_x",
        "cursor_y",
        "history_all_bytes",
        "history_bytes",
        "history_limit",
        "history_size",
        "host",
        "host_short",
        "insert_flag",
        "keypad_cursor_flag",
        "keypad_flag",
        "last_window_index",
        "mouse_all_flag",
        "mouse_any_flag",
        "mouse_button_flag",
        "mouse_sgr_flag",
        "mouse_standard_flag",
        "mouse_utf8_flag",
        "next_session_id",
        "origin_flag",
        "pane_active",
        "pane_at_bottom",
        "pane_at_left",
        "pane_at_right",
        "pane_at_top",
        "pane_bg",
        "pane_bottom",
        "pane_current_command",
        "pane_current_path",
        "pane_dead",
        "pane_fg",
        "pane_format",
        "pane_height",
        "pane_id",
        "pane_in_mode",
        "pane_index",
        "pane_input_off",
        "pane_last",
        "pane_left",
        "pane_marked",
        "pane_marked_set",
        "pane_path",
        "pane_pid",
        "pane_pipe",
        "pane_right",
        "pane_search_string",
        "pane_start_command",
        "pane_start_path",
        "pane_synchronized",
        "pane_tabs",
        "pane_title",
        "pane_top",
        "pane_tty",
        "pane_unseen_changes",
        "pane_width",
        "pid",
        "scroll_region_lower",
        "scroll_region_upper",
        "server_sessions",
        "session_activity",
        "session_alerts",
        "session_attached",
        "session_created",
        "session_format",
        "session_grouped",
        "session_id",
        "session_last_attached",
        "session_many_attached",
        "session_marked",
        "session_name",
        "session_path",
        "session_stack",
        "session_windows",
        "socket_path",
        "start_time",
        "tree_mode_format",
        "uid",
        "user",
        "version",
        "window_active",
        "window_active_clients",
        "window_active_sessions",
        "window_active_sessions_list",
        "window_activity",
        "window_activity_flag",
        "window_bell_flag",
        "window_cell_height",
        "window_cell_width",
        "window_end_flag",
        "window_flags",
        "window_format",
        "window_height",
        "window_id",
        "window_index",
        "window_last_flag",
        "window_layout",
        "window_linked",
        "window_linked_sessions",
        "window_linked_sessions_list",
        "window_marked_flag",
        "window_name",
        "window_panes",
        "window_raw_flags",
        "window_silence_flag",
        "window_stack_index",
        "window_start_flag",
        "window_visible_layout",
        "window_width",
        "window_zoomed_flag",
        "wrap_flag",
        "command",
    ];
    let ghost lines = str_views(names@).map_values(|name: Seq<char>| format_line(name));
    proof {
        assert(str_views(names@) =~= display_all_formats());
    }
    let mut out = String::new();
    let mut i: usize = 0;
    while i < names.len()
        invariant
            i <= names@.len(),
            lines == str_views(names@).map_values(|name: Seq<char>| format_line(name)),
            lines.len() == names@.len(),
            out@ == join(lines.take(i as int), "\n"@),
        decreases names.len() - i,
    {
        let line = format_line_string(names[i]);
        proof {
            assert(lines.take(i + 1).drop_last() =~= lines.take(i as int));
            assert(lines.take(i + 1).last() == line@);
        }
        if i > 0 {
            out.append("\n");
        } else {
            proof {
                assert(out@ =~= Seq::<char>::empty());
            }
        }
        out.append(line.as_str());
        proof {
            if i == 0 {
                assert(out@ =~= join(lines.take(1), "\n"@));
            }
        }
        i = i + 1;
    }
    proof {
        assert(lines.take(names@.len() as int) =~= lines);
    }
    out
}


// ---------------------------------------------------------------------------
// capture-pane
// ---------------------------------------------------------------------------

/// The switches of `capture-pane` (flags without a value).
#[derive(Debug, Clone, Copy, PartialEq, Eq, Structural)]
pub struct CaptureSwitches {
    pub print: bool,
    pub alternate: bool,
    pub escape_ansi: bool,
    pub escape_sequences: bool,
    pub join_wrapped: bool,
    pub use_mode_screen: bool,
    pub do_not_trim_spaces: bool,
    pub preserve_trailing_spaces: bool,
    pub pending_input: bool,
    pub quiet: bool,
}

pub open spec fn no_capture_switches() -> CaptureSwitches {
    CaptureSwitches {
        print: false,
        alternate: false,
        escape_ansi: false,
        escape_sequences: false,
        join_wrapped: false,
        use_mode_screen: false,
        do_not_trim_spaces: false,
        preserve_trailing_spaces: false,
        pending_input: false,
        quiet: false,
    }
}

/// The switches after the flag character `c`, if `c` is a switch.
pub open spec fn capture_switch(sw: CaptureSwitches, c: char) -> Option<CaptureSwitches> {
    if c == 'p' {
        Some(CaptureSwitches { print: true, ..sw })
    } else if c == 'a' {
        Some(CaptureSwitches { alternate: true, ..sw })
    } else if c == 'e' {
        Some(CaptureSwitches { escape_ansi: true, ..sw })
    } else if c == 'C' {
        Some(CaptureSwitches { escape_sequences: true, ..sw })
    } else if c == 'J' {
        Some(CaptureSwitches { join_wrapped: true, ..sw })
    } else if c == 'M' {
        Some(CaptureSwitches { use_mode_screen: true, ..sw })
    } else if c == 'N' {
        Some(CaptureSwitches { do_not_trim_spaces: true, ..sw })
    } else if c == 'T' {
        Some(CaptureSwitches { preserve_trailing_spaces: true, ..sw })
    } else if c == 'P' {
        Some(CaptureSwitches { pending_input: true, ..sw })
    } else if c == 'q' {
        Some(CaptureSwitches { quiet: true, ..sw })
    } else {
        None
    }
}

fn capture_switch_exec(sw: CaptureSwitches, c: char) -> (r: Option<CaptureSwitches>)
    ensures
        r == capture_switch(sw, c),
{
    if c == 'p' {
        Some(CaptureSwitches { print: true, ..sw })
    } else if c == 'a' {
        Some(CaptureSwitches { alternate: true, ..sw })
    } else if c == 'e' {
        Some(CaptureSwitches { escape_ansi: true, ..sw })
    } else if c == 'C' {
        Some(CaptureSwitches { escape_sequences: true, ..sw })
    } else if c == 'J' {
        Some(CaptureSwitches { join_wrapped: true, ..sw })
    } else if c == 'M' {
        Some(CaptureSwitches { use_mode_screen: true, ..sw })
    } else if c == 'N' {
        Some(CaptureSwitches { do_not_trim_spaces: true, ..sw })
    } else if c == 'T' {
        Some(CaptureSwitches { preserve_trailing_spaces: true, ..sw })
    } else if c == 'P' {
        Some(CaptureSwitches { pending_input: true, ..sw })
    } else if c == 'q' {
        Some(CaptureSwitches { quiet: true, ..sw })
    } else {
        None
    }
}

/// A line bound of `capture-pane -S` or `-E`: `-` for the edge of the
/// history, else a line number.
#[derive(Debug, Clone, Copy, PartialEq, Eq, Structural)]
pub enum CaptureBound {
    Edge,
    Line(i64),
}

/// The flags of a `capture-pane` command line read so far.
pub struct CapturePaneState {
    pub switches: CaptureSwitches,
    pub target: Option<Seq<char>>,
    pub buffer_name: Option<Seq<char>>,
    pub start: Option<i64>,
    pub end: Option<i64>,
    pub start_is_absolute: bool,
    pub end_is_absolute: bool,
}

pub open spec fn capture_pane_initial() -> CapturePaneState {
    CapturePaneState {
        switches: no_capture_switches(),
        target: None,
        buffer_name: None,
        start: None,
        end: None,
        start_is_absolute: false,
        end_is_absolute: false,
    }
}

/// The bound written as `v`, if it is one.
pub open spec fn capture_bound(v: Seq<char>) -> Option<CaptureBound> {
    if v == seq!['-'] {
        Some(CaptureBound::Edge)
    } else {
        match parse_i64_spec(v) {
            Some(n) => Some(CaptureBound::Line(n)),
            None => None,
        }
    }
}

/// The state after the bound `b` of `-S` (when `start`) or `-E`: `-` marks
/// the bound absolute and keeps an earlier number.
pub open spec fn with_bound(st: CapturePaneState, start: bool, b: CaptureBound) -> CapturePaneState {
    match b {
        CaptureBound::Edge => if start {
            CapturePaneState { start_is_absolute: true, ..st }
        } else {
            CapturePaneState { end_is_absolute: true, ..st }
        },
        CaptureBound::Line(n) => if start {
            CapturePaneState { start: Some(n), ..st }
        } else {
            CapturePaneState { end: Some(n), ..st }
        },
    }
}

/// A `capture-pane` command line from token `i` on: every word is a flag;
/// another word that starts with `-` is an unsupported flag, and any other
/// word is refused.
pub open spec fn capture_pane_loop<E>(
    args: Seq<Seq<char>>,
    i: int,
    chk: spec_fn(Seq<char>) -> Result<(), E>,
    st: CapturePaneState) -> Result<
    CapturePaneState,
    ParseErrorView<E>,
>
    decreases args.len() - i,
{
    if i < 0 || i >= args.len() {
        Ok(st)
    } else {
        let f = single_flag(args[i]);
        if f is Some && capture_switch(st.switches, f->0) is Some {
            capture_pane_loop(
                args,
                i + 1,
                chk,
                CapturePaneState { switches: capture_switch(st.switches, f->0)->0, ..st },
            )
        } else if f == Some('t') || f == Some('b') || f == Some('S') || f == Some('E') {
            let c = f->0;
            if i + 1 >= args.len() {
                Err(refused(CommandErrorView::MissingArgument(
                        if c == 't' {
                            "-t target"@
                        } else if c == 'b' {
                            "-b buffer name"@
                        } else {
                            seq!['-', c] + " value"@
                        },
                    )))
            } else if (f == Some('t')) && chk(args[i + 1]) is Err {
                Err(ParseErrorView::Target(chk(args[i + 1])->Err_0))
            } else if c == 't' {
                capture_pane_loop(args, i + 2, chk, CapturePaneState { target: Some(args[i + 1]), ..st })
            } else if c == 'b' {
                capture_pane_loop(
                    args,
                    i + 2,
                    chk,
                    CapturePaneState { buffer_name: Some(args[i + 1]), ..st },
                )
            } else {
                match capture_bound(args[i + 1]) {
                    None => Err(refused(CommandErrorView::InvalidNumber("capture-pane"@, seq!['-', c], args[i + 1]))),
                    Some(b) => capture_pane_loop(args, i + 2, chk, with_bound(st, c == 'S', b)),
                }
            }
        } else if starts_with_dash(args[i]) {
            Err(refused(CommandErrorView::UnsupportedFlag("capture-pane"@, args[i])))
        } else {
            Err(refused(CommandErrorView::UnexpectedArgument("capture-pane"@, args[i])))
        }
    }
}

/// What a `capture-pane` command line says; the target (required) is
/// returned as written.
pub struct CapturePaneTokens {
    pub target: String,
    pub switches: CaptureSwitches,
    pub buffer_name: Option<String>,
    pub start: Option<i64>,
    pub end: Option<i64>,
    pub start_is_absolute: bool,
    pub end_is_absolute: bool,
}

pub struct CapturePaneTokensView {
    pub target: Seq<char>,
    pub switches: CaptureSwitches,
    pub buffer_name: Option<Seq<char>>,
    pub start: Option<i64>,
    pub end: Option<i64>,
    pub start_is_absolute: bool,
    pub end_is_absolute: bool,
}

impl CapturePaneTokens {
    pub open spec fn view(&self) -> CapturePaneTokensView {
        CapturePaneTokensView {
            target: self.target@,
            switches: self.switches,
            buffer_name: opt_view(self.buffer_name),
            start: self.start,
            end: self.end,
            start_is_absolute: self.start_is_absolute,
            end_is_absolute: self.end_is_absolute,
        }
    }
}

/// A `capture-pane` command line read; `-t` is required.
pub open spec fn capture_pane_spec<E>(
    args: Seq<Seq<char>>,
    chk: spec_fn(Seq<char>) -> Result<(), E>,
) -> Result<CapturePaneTokensView, ParseErrorView<E>> {
    match capture_pane_loop(args, 0, chk, capture_pane_initial()) {
        Err(e) => Err(e),
        Ok(st) => match st.target {
            None => Err(refused(CommandErrorView::MissingArgument("-t target"@))),
            Some(t) => Ok(
                CapturePaneTokensView {
                    target: t,
                    switches: st.switches,
                    buffer_name: st.buffer_name,
                    start: st.start,
                    end: st.end,
                    start_is_absolute: st.start_is_absolute,
                    end_is_absolute: st.end_is_absolute,
                },
            ),
        },
    }
}

fn bound_value_missing(c: char) -> (e: CommandError)
    ensures
        error_view(e) == CommandErrorView::MissingArgument(seq!['-', c] + " value"@),
{
    let mut what = String::new();
    crate::text::string_push(&mut what, '-');
    crate::text::string_push(&mut what, c);
    what.append(" value");
    proof {
        assert(what@ =~= seq!['-', c] + " value"@);
    }
    CommandError::MissingArgument { what }
}

fn read_bound(v: &str) -> (r: Option<CaptureBound>)
    ensures
        r == capture_bound(v@),
{
    let dash = str_eq(v, "-");
    proof {
        reveal_strlit("-");
        assert("-"@ =~= seq!['-']);
    }
    if dash {
        Some(CaptureBound::Edge)
    } else {
        match parse_i64_value(v) {
            Some(n) => Some(CaptureBound::Line(n)),
            None => None,
        }
    }
}

/// Reads a `capture-pane` command line. `check` checks each target
/// word where it is given, before the flag that follows it is read.
pub fn parse_capture_pane_tokens<E, F: Fn(&String) -> Result<(), E>>(args: &[String], check: &F) -> (r: Result<
    CapturePaneTokens,
    ParseError<E>,
>)
    requires
        forall|s: &String| check.requires((s,)),
    ensures
        forall|chk: spec_fn(Seq<char>) -> Result<(), E>|
            checks_targets(*check, chk) ==> match r {
                Ok(t) => capture_pane_spec(string_views(args@), chk) == Ok::<CapturePaneTokensView, ParseErrorView<E>>(t.view()),
                Err(e) => capture_pane_spec(string_views(args@), chk) == Err::<CapturePaneTokensView, ParseErrorView<E>>(
                    parse_error_view(e),
                ),
            },
{
    let ghost a = string_views(args@);
    let mut switches = CaptureSwitches {
        print: false,
        alternate: false,
        escape_ansi: false,
        escape_sequences: false,
        join_wrapped: false,
        use_mode_screen: false,
        do_not_trim_spaces: false,
        preserve_trailing_spaces: false,
        pending_input: false,
        quiet: false,
    };
    let mut target: Option<String> = None;
    let mut buffer_name: Option<String> = None;
    let mut start: Option<i64> = None;
    let mut end: Option<i64> = None;
    let mut start_is_absolute = false;
    let mut end_is_absolute = false;
    let mut i: usize = 0;
    while i < args.len()
        invariant
            i <= args@.len(),
            a == string_views(args@),
            forall|s: &String| check.requires((s,)),
            forall|chk: spec_fn(Seq<char>) -> Result<(), E>|
                checks_targets(*check, chk) ==> {
                    &&& capture_pane_loop(a, 0, chk, capture_pane_initial()) == capture_pane_loop(
                        a,
                        i as int,
                        chk,
                        CapturePaneState {
                            switches,
                            target: opt_view(target),
                            buffer_name: opt_view(buffer_name),
                            start,
                            end,
                            start_is_absolute,
                            end_is_absolute,
                        },
                    )
                },
        decreases args.len() - i,
    {
        proof {
            assert(a[i as int] == args@[i as int]@);
        }
        let f = token_flag(args[i].as_str());
        let switched = match f {
            Some(c) => capture_switch_exec(switches, c),
            None => None,
        };
        if let Some(next) = switched {
            switches = next;
            i = i + 1;
        } else if f == Some('t') || f == Some('b') || f == Some('S') || f == Some('E') {
            let c = f.unwrap();
            if i + 1 >= args.len() {
                return Err(ParseError::Command(if c == 't' {
                        missing_value("-t target")
                    } else if c == 'b' {
                        missing_value("-b buffer name")
                    } else {
                        bound_value_missing(c)
                    }));
            }
            proof {
                assert(a[i + 1] == args@[i + 1]@);
            }
            if f == Some('t') {
                let checked = check(&args[i + 1]);
                if let Err(e) = checked {
                    return Err(ParseError::Target(e));
                }
            }
            if c == 't' {
                target = Some(args[i + 1].clone());
            } else if c == 'b' {
                buffer_name = Some(args[i + 1].clone());
            } else {
                match read_bound(args[i + 1].as_str()) {
                    None => {
                        let mut flag = String::new();
                        crate::text::string_push(&mut flag, '-');
                        crate::text::string_push(&mut flag, c);
                        proof {
                            assert(flag@ =~= seq!['-', c]);
                        }
                        return Err(ParseError::Command(CommandError::InvalidNumber {
                                command: string_from("capture-pane"),
                                flag,
                                value: args[i + 1].clone(),
                            }));
                    },
                    Some(CaptureBound::Edge) => {
                        if c == 'S' {
                            start_is_absolute = true;
                        } else {
                            end_is_absolute = true;
                        }
                    },
                    Some(CaptureBound::Line(n)) => {
                        if c == 'S' {
                            start = Some(n);
                        } else {
                            end = Some(n);
                        }
                    },
                }
            }
            i = i + 2;
        } else if token_starts_with_dash(args[i].as_str()) {
            return Err(ParseError::Command(unsupported("capture-pane", &args[i])));
        } else {
            return Err(ParseError::Command(leftover("capture-pane", &args[i])));
        }
    }
    match target {
        None => Err(ParseError::Command(missing_value("-t target"))),
        Some(target) => Ok(
            CapturePaneTokens {
                target,
                switches,
                buffer_name,
                start,
                end,
                start_is_absolute,
                end_is_absolute,
            },
        ),
    }
}

// ---------------------------------------------------------------------------
// display-message
// ---------------------------------------------------------------------------

/// What `display-message` shows.
pub enum DisplayMessageText {
    /// The default message of the caller.
    Default,
    /// The format given (by `-F`, or the full list of `-a`).
    Format(String),
    /// The words after the flags, for the caller to join as the message.
    Words(Vec<String>),
}

pub enum DisplayMessageTextView {
    Default,
    Format(Seq<char>),
    Words(Seq<Seq<char>>),
}

/// The flags of a `display-message` command line from token `i` on: the raw
/// target, whether to print, whether `-a` was given, the `-F` format, and
/// where the flags end.
pub open spec fn display_message_loop<E>(
    args: Seq<Seq<char>>,
    i: int,
    chk: spec_fn(Seq<char>) -> Result<(), E>,
    target: Option<Seq<char>>,
    print: bool,
    all_formats: bool,
    format: Option<Seq<char>>,
) -> Result<(Option<Seq<char>>, bool, bool, Option<Seq<char>>, int), ParseErrorView<E>>
    decreases args.len() - i,
{
    if i < 0 || i >= args.len() {
        Ok((target, print, all_formats, format, i))
    } else {
        let f = single_flag(args[i]);
        if f == Some('-') {
            Ok((target, print, all_formats, format, i + 1))
        } else if f == Some('a') {
            display_message_loop(args, i + 1, chk, target, true, true, format)
        } else if f == Some('p') {
            display_message_loop(args, i + 1, chk, target, true, all_formats, format)
        } else if f == Some('F') || f == Some('t') {
            if i + 1 >= args.len() {
                Err(refused(CommandErrorView::MissingArgument(
                        if f == Some('F') {
                            "-F format"@
                        } else {
                            "-t target"@
                        },
                    )))
            } else if (f == Some('t')) && chk(args[i + 1]) is Err {
                Err(ParseErrorView::Target(chk(args[i + 1])->Err_0))
            } else if f == Some('F') {
                display_message_loop(args, i + 2, chk, target, print, all_formats, Some(args[i + 1]))
            } else {
                display_message_loop(args, i + 2, chk, Some(args[i + 1]), print, all_formats, format)
            }
        } else {
            Ok((target, print, all_formats, format, i))
        }
    }
}

/// What a `display-message` command line says: the raw target, whether to
/// print, and the message.
pub struct DisplayMessageTokens {
    pub target: Option<String>,
    pub print: bool,
    pub message: DisplayMessageText,
}

pub struct DisplayMessageTokensView {
    pub target: Option<Seq<char>>,
    pub print: bool,
    pub message: DisplayMessageTextView,
}

impl DisplayMessageTokens {
    pub open spec fn view(&self) -> DisplayMessageTokensView {
        DisplayMessageTokensView {
            target: opt_view(self.target),
            print: self.print,
            message: match self.message {
                DisplayMessageText::Default => DisplayMessageTextView::Default,
                DisplayMessageText::Format(f) => DisplayMessageTextView::Format(f@),
                DisplayMessageText::Words(w) => DisplayMessageTextView::Words(string_views(w@)),
            },
        }
    }
}

/// A `display-message` command line read: `-a` shows every format variable
/// and takes no words; without `-F`, the words after the flags are the
/// message; with `-F` no words may follow.
pub open spec fn display_message_spec<E>(
    args: Seq<Seq<char>>,
    chk: spec_fn(Seq<char>) -> Result<(), E>,
) -> Result<DisplayMessageTokensView, ParseErrorView<E>> {
    match display_message_loop(args, 0, chk, None, false, false, None) {
        Err(e) => Err(e),
        Ok((target, print, all_formats, format, i)) => if all_formats {
            if i < args.len() {
                Err(refused(CommandErrorView::UnexpectedArgument("display-message"@, args[i])))
            } else {
                Ok(
                    DisplayMessageTokensView {
                        target,
                        print,
                        message: DisplayMessageTextView::Format(
                            display_all_formats_template_spec(),
                        ),
                    },
                )
            }
        } else if format is None && i < args.len() {
            Ok(
                DisplayMessageTokensView {
                    target,
                    print,
                    message: DisplayMessageTextView::Words(args.subrange(i, args.len() as int)),
                },
            )
        } else if i < args.len() {
            Err(refused(CommandErrorView::UnexpectedArgument("display-message"@, args[i])))
        } else {
            Ok(
                DisplayMessageTokensView {
                    target,
                    print,
                    message: match format {
                        Some(f) => DisplayMessageTextView::Format(f),
                        None => DisplayMessageTextView::Default,
                    },
                },
            )
        },
    }
}

/// Reads a `display-message` command line. `check` checks each target
/// word where it is given, before the flag that follows it is read.
pub fn parse_display_message_tokens<E, F: Fn(&String) -> Result<(), E>>(args: &[String], check: &F) -> (r: Result<
    DisplayMessageTokens,
    ParseError<E>,
>)
    requires
        forall|s: &String| check.requires((s,)),
    ensures
        forall|chk: spec_fn(Seq<char>) -> Result<(), E>|
            checks_targets(*check, chk) ==> match r {
                Ok(t) => display_message_spec(string_views(args@), chk) == Ok::<DisplayMessageTokensView, ParseErrorView<E>>(t.view()),
                Err(e) => display_message_spec(string_views(args@), chk) == Err::<DisplayMessageTokensView, ParseErrorView<E>>(
                    parse_error_view(e),
                ),
            },
{
    let ghost a = string_views(args@);
    let mut target: Option<String> = None;
    let mut print = false;
    let mut all_formats = false;
    let mut format: Option<String> = None;
    let mut i: usize = 0;
    let mut done = false;
    while i < args.len() && !done
        invariant
            i <= args@.len(),
            a == string_views(args@),
            forall|s: &String| check.requires((s,)),
            forall|chk: spec_fn(Seq<char>) -> Result<(), E>|
                checks_targets(*check, chk) ==> {
                    &&& !done ==> display_message_loop(a, 0, chk, None, false, false, None) == display_message_loop(
                        a,
                        i as int,
                        chk,
                        opt_view(target),
                        print,
                        all_formats,
                        opt_view(format),
                    )
                    &&& done ==> display_message_loop(a, 0, chk, None, false, false, None) == Ok::<
                        (Option<Seq<char>>, bool, bool, Option<Seq<char>>, int),
                        ParseErrorView<E>,
                    >((opt_view(target), print, all_formats, opt_view(format), i as int))
                },
        decreases args.len() - i + (if done { 0int } else { 1int }),
    {
        proof {
            assert(a[i as int] == args@[i as int]@);
        }
        let f = token_flag(args[i].as_str());
        if f == Some('-') {
            i = i + 1;
            done = true;
        } else if f == Some('a') {
            all_formats = true;
            print = true;
            i = i + 1;
        } else if f == Some('p') {
            print = true;
            i = i + 1;
        } else if f == Some('F') || f == Some('t') {
            if i + 1 >= args.len() {
                return Err(ParseError::Command(if f == Some('F') {
                        missing_value("-F format")
                    } else {
                        missing_value("-t target")
                    }));
            }
            proof {
                assert(a[i + 1] == args@[i + 1]@);
            }
            if f == Some('t') {
                let checked = check(&args[i + 1]);
                if let Err(e) = checked {
                    return Err(ParseError::Target(e));
                }
            }
            if f == Some('F') {
                format = Some(args[i + 1].clone());
            } else {
                target = Some(args[i + 1].clone());
            }
            i = i + 2;
        } else {
            done = true;
        }
    }
    if all_formats {
        if i < args.len() {
            proof {
                assert(a[i as int] == args@[i as int]@);
            }
            return Err(ParseError::Command(leftover("display-message", &args[i])));
        }
        return Ok(
            DisplayMessageTokens {
                target,
                print,
                message: DisplayMessageText::Format(display_all_formats_template()),
            },
        );
    }
    if format.is_none() && i < args.len() {
        let words = trailing_words(args, i);
        return match words {
            Some(w) => Ok(DisplayMessageTokens { target, print, message: DisplayMessageText::Words(w) }),
            None => Ok(DisplayMessageTokens { target, print, message: DisplayMessageText::Default }),
        };
    }
    if i < args.len() {
        proof {
            assert(a[i as int] == args@[i as int]@);
        }
        return Err(ParseError::Command(leftover("display-message", &args[i])));
    }
    let message = match format {
        Some(f) => DisplayMessageText::Format(f),
        None => DisplayMessageText::Default,
    };
    Ok(DisplayMessageTokens { target, print, message })
}

// ---------------------------------------------------------------------------
// Laws of the capture-pane switches
// ---------------------------------------------------------------------------

/// The letters that name a `capture-pane` switch.
pub open spec fn capture_switch_letter(c: char) -> bool {
    c == 'p' || c == 'a' || c == 'e' || c == 'C' || c == 'J' || c == 'M' || c == 'N' || c == 'T'
        || c == 'P' || c == 'q'
}

/// The switches `sw` with the one that the letter `c` names turned on:
/// `p` print, `a` alternate screen, `e` escape ANSI, `C` escape sequences,
/// `J` join wrapped lines, `M` mode screen, `N` keep trailing spaces (no
/// trim), `T` preserve trailing spaces, `P` pending input, `q` quiet.
pub open spec fn switch_on(sw: CaptureSwitches, c: char) -> CaptureSwitches {
    CaptureSwitches {
        print: sw.print || c == 'p',
        alternate: sw.alternate || c == 'a',
        escape_ansi: sw.escape_ansi || c == 'e',
        escape_sequences: sw.escape_sequences || c == 'C',
        join_wrapped: sw.join_wrapped || c == 'J',
        use_mode_screen: sw.use_mode_screen || c == 'M',
        do_not_trim_spaces: sw.do_not_trim_spaces || c == 'N',
        preserve_trailing_spaces: sw.preserve_trailing_spaces || c == 'T',
        pending_input: sw.pending_input || c == 'P',
        quiet: sw.quiet || c == 'q',
    }
}

pub open spec fn state_switch_on(st: CapturePaneState, c: char) -> CapturePaneState {
    CapturePaneState { switches: switch_on(st.switches, c), ..st }
}

pub open spec fn loop_switch_on<E>(r: Result<CapturePaneState, ParseErrorView<E>>, c: char) -> Result<
    CapturePaneState,
    ParseErrorView<E>,
> {
    match r {
        Ok(st) => Ok(state_switch_on(st, c)),
        Err(e) => Err(e),
    }
}

/// The outcome `r` with the switch named by `c` turned on, if it is a success.
pub open spec fn result_switch_on<E>(
    r: Result<CapturePaneTokensView, ParseErrorView<E>>,
    c: char,
) -> Result<CapturePaneTokensView, ParseErrorView<E>> {
    match r {
        Ok(t) => Ok(CapturePaneTokensView { switches: switch_on(t.switches, c), ..t }),
        Err(e) => Err(e),
    }
}

proof fn lemma_capture_switch_commutes(sw: CaptureSwitches, c: char, f: char)
    requires
        capture_switch_letter(c),
    ensures
        capture_switch(switch_on(sw, c), f) is Some == capture_switch(sw, f) is Some,
        capture_switch(sw, f) is Some ==> capture_switch(switch_on(sw, c), f)->0 == switch_on(
            capture_switch(sw, f)->0,
            c,
        ),
{
}

/// Reading `x` then `rest` from token `i + 1` with the switch `c` on agrees
/// with reading `rest` from token `i`, the switch turned on at the end.
#[verifier::spinoff_prover]
#[verifier::rlimit(60)]
proof fn lemma_capture_loop_switch_on<E>(
    x: Seq<char>,
    rest: Seq<Seq<char>>,
    i: int,
    chk: spec_fn(Seq<char>) -> Result<(), E>,
    st: CapturePaneState,
    c: char,
)
    requires
        0 <= i <= rest.len(),
        capture_switch_letter(c),
    ensures
        capture_pane_loop(seq![x] + rest, i + 1, chk, state_switch_on(st, c)) == loop_switch_on(
            capture_pane_loop(rest, i, chk, st),
            c,
        ),
    decreases rest.len() - i,
{
    let args = seq![x] + rest;
    if i < rest.len() {
        assert(args[i + 1] == rest[i]);
        if i + 1 < rest.len() {
            assert(args[i + 2] == rest[i + 1]);
        }
        let f = single_flag(rest[i]);
        if f is Some {
            lemma_capture_switch_commutes(st.switches, c, f->0);
        }
        if f is Some && capture_switch(st.switches, f->0) is Some {
            let next = CapturePaneState { switches: capture_switch(st.switches, f->0)->0, ..st };
            lemma_capture_loop_switch_on(x, rest, i + 1, chk, next, c);
            assert(CapturePaneState {
                switches: capture_switch(state_switch_on(st, c).switches, f->0)->0,
                ..state_switch_on(st, c)
            } == state_switch_on(next, c));
        } else if (f == Some('t') || f == Some('b') || f == Some('S') || f == Some('E')) && i + 1
            < rest.len() {
            let v = rest[i + 1];
            let cc = f->0;
            if cc == 't' {
                let next = CapturePaneState { target: Some(v), ..st };
                lemma_capture_loop_switch_on(x, rest, i + 2, chk, next, c);
                assert(CapturePaneState { target: Some(v), ..state_switch_on(st, c) }
                    == state_switch_on(next, c));
            } else if cc == 'b' {
                let next = CapturePaneState { buffer_name: Some(v), ..st };
                lemma_capture_loop_switch_on(x, rest, i + 2, chk, next, c);
                assert(CapturePaneState { buffer_name: Some(v), ..state_switch_on(st, c) }
                    == state_switch_on(next, c));
            } else if let Some(b) = capture_bound(v) {
                let next = with_bound(st, cc == 'S', b);
                lemma_capture_loop_switch_on(x, rest, i + 2, chk, next, c);
                assert(with_bound(state_switch_on(st, c), cc == 'S', b) == state_switch_on(next, c));
            }
        }
    }
}

/// A switch token `-c` put in front of any `capture-pane` command line turns
/// on the switch that `c` names and changes nothing else: the line reads
/// exactly as without it, with that one switch on (`-a` the alternate
/// screen, `-p` printing, and so on), and fails where it fails.
pub proof fn law_capture_switch_token_turns_its_switch_on<E>(
    c: char,
    rest: Seq<Seq<char>>,
    chk: spec_fn(Seq<char>) -> Result<(), E>,
)
    requires
        capture_switch_letter(c),
    ensures
        capture_pane_spec(seq![seq!['-', c]] + rest, chk) == result_switch_on(
            capture_pane_spec(rest, chk),
            c,
        ),
{
    let args = seq![seq!['-', c]] + rest;
    assert(args[0] == seq!['-', c]);
    assert(single_flag(args[0]) == Some(c));
    assert(capture_switch(no_capture_switches(), c) == Some(switch_on(no_capture_switches(), c)));
    assert(CapturePaneState {
        switches: capture_switch(capture_pane_initial().switches, c)->0,
        ..capture_pane_initial()
    } == state_switch_on(capture_pane_initial(), c));
    lemma_capture_loop_switch_on(seq!['-', c], rest, 0, chk, capture_pane_initial(), c);
}

} // verus!
