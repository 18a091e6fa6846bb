use vstd::prelude::*;

use crate::source_files::string_views;
use crate::text::{chars_of, str_eq, str_in_list, str_views, string_of, slice_chars};

verus! {

pub open spec fn is_decimal_digit(c: char) -> bool {
    '0' <= c <= '9'
}

/// The value of a string of decimal digits.
pub open spec fn decimal_value(s: Seq<char>) -> nat
    decreases s.len(),
{
    if s.len() == 0 {
        0
    } else {
        decimal_value(s.drop_last()) * 10 + (s.last() as u32 - 0x30) as nat
    }
}

/// Whether `s` parses as a `u32` (`str::parse::<u32>`): an optional `+`, then
/// at least one decimal digit, with a value that fits in 32 bits.
pub open spec fn parses_as_u32(s: Seq<char>) -> bool {
    u32_digits(
        if s.len() > 0 && s[0] == '+' {
            s.drop_first()
        } else {
            s
        },
    )
}

/// A non-empty string of decimal digits whose value fits in 32 bits.
pub open spec fn u32_digits(digits: Seq<char>) -> bool {
    digits.len() > 0 && (forall|i: int| 0 <= i < digits.len() ==> is_decimal_digit(#[trigger] digits[i]))
        && decimal_value(digits) <= u32::MAX
}

pub proof fn lemma_decimal_value_prefix(s: Seq<char>, i: int)
    requires
        0 <= i <= s.len(),
    ensures
        decimal_value(s.take(i)) <= decimal_value(s),
    decreases s.len() - i,
{
    if i < s.len() {
        lemma_decimal_value_prefix(s, i + 1);
        assert(s.take(i + 1).drop_last() =~= s.take(i));
    } else {
        assert(s.take(i) =~= s);
    }
}

/// Decides `str::parse::<u32>().is_ok()`.
pub fn parses_u32(s: &[char]) -> (r: bool)
    ensures
        r == parses_as_u32(s@),
{
    let mut start: usize = 0;
    if s.len() > 0 && s[0] == '+' {
        start = 1;
    }
    let ghost digits = s@.subrange(start as int, s@.len() as int);
    proof {
        if s@.len() > 0 && s@[0] == '+' {
            assert(digits =~= s@.drop_first());
        } else {
            assert(digits =~= s@);
        }
    }
    if start >= s.len() {
        return false;
    }
    let mut value: u64 = 0;
    let mut i = start;
    proof {
        assert(s@.subrange(start as int, start as int) =~= Seq::<char>::empty());
    }
    while i < s.len()
        invariant
            start <= i <= s@.len(),
            digits == s@.subrange(start as int, s@.len() as int),
            parses_as_u32(s@) == u32_digits(digits),
            digits.len() > 0,
            value == decimal_value(s@.subrange(start as int, i as int)),
            value <= u32::MAX,
            forall|k: int| start <= k < i ==> is_decimal_digit(#[trigger] s@[k]),
        decreases s.len() - i,
    {
        proof {
            assert(s@.subrange(start as int, i + 1).drop_last() =~= s@.subrange(
                start as int,
                i as int,
            ));
        }
        let c = s[i];
        if !('0' <= c && c <= '9') {
            proof {
                assert(digits[i - start] == c);
            }
            return false;
        }
        value = value * 10 + (c as u64 - 0x30);
        i = i + 1;
        if value > 0xffff_ffff {
            proof {
                lemma_decimal_value_prefix(digits, i - start);
                assert(digits.take(i - start) =~= s@.subrange(start as int, i as int));
            }
            return false;
        }
    }
    proof {
        assert forall|k: int| 0 <= k < digits.len() implies is_decimal_digit(#[trigger] digits[k]) by {
            assert(digits[k] == s@[start + k]);
        }
    }
    true
}

/// Whether a `new-window -t` argument names a session rather than a window:
/// no `:` or `.`, no leading `@`, `%`, `+` or `-`, not a window index, and
/// none of the special window tokens.
pub open spec fn new_window_target_names_session(value: Seq<char>) -> bool {
    &&& !value.contains(':')
    &&& !value.contains('.')
    &&& !(value.len() > 0 && (value[0] == '@' || value[0] == '%' || value[0] == '+' || value[0]
        == '-'))
    &&& !parses_as_u32(value)
    &&& value != "!"@
    &&& value != "^"@
    &&& value != "$"@
    &&& value != "{start}"@
    &&& value != "{last}"@
    &&& value != "{end}"@
    &&& value != "{next}"@
    &&& value != "{previous}"@
}

fn contains_char(s: &[char], c: char) -> (r: bool)
    ensures
        r == s@.contains(c),
{
    let mut i: usize = 0;
    while i < s.len()
        invariant
            i <= s@.len(),
            forall|j: int| 0 <= j < i ==> s@[j] != c,
        decreases s.len() - i,
    {
        if s[i] == c {
            return true;
        }
        i = i + 1;
    }
    false
}

/// Decides whether a `new-window -t` argument names a session.
pub fn new_window_target_is_session(value: &str) -> (r: bool)
    ensures
        r == new_window_target_names_session(value@),
{
    let v = chars_of(value);
    if contains_char(v.as_slice(), ':') || contains_char(v.as_slice(), '.') {
        return false;
    }
    if v.len() > 0 && (v[0] == '@' || v[0] == '%' || v[0] == '+' || v[0] == '-') {
        return false;
    }
    if parses_u32(v.as_slice()) {
        return false;
    }
    !(str_eq(value, "!") || str_eq(value, "^") || str_eq(value, "$") || str_eq(value, "{start}")
        || str_eq(value, "{last}") || str_eq(value, "{end}") || str_eq(value, "{next}") || str_eq(
        value,
        "{previous}",
    ))
}

/// The parts of a short flag argument `-xVALUE`: the flag character and the
/// value attached to it, if any. Arguments that do not start with a single
/// `-` followed by a character have none.
pub open spec fn short_flag_parts(argument: Seq<char>) -> Option<(char, Option<Seq<char>>)> {
    if argument.len() < 2 || argument[0] != '-' || argument[1] == '-' {
        None
    } else if argument.len() == 2 {
        Some((argument[1], None))
    } else {
        Some((argument[1], Some(argument.subrange(2, argument.len() as int))))
    }
}

/// Splits a short flag argument into its flag and attached value.
pub fn short_flag_argument_parts(argument: &str) -> (r: Option<(char, Option<String>)>)
    ensures
        match r {
            None => short_flag_parts(argument@) is None,
            Some((flag, None)) => short_flag_parts(argument@) == Some((flag, None::<Seq<char>>)),
            Some((flag, Some(value))) => short_flag_parts(argument@) == Some(
                (flag, Some(value@)),
            ),
        },
{
    let v = chars_of(argument);
    if v.len() < 2 || v[0] != '-' || v[1] == '-' {
        return None;
    }
    let flag = v[1];
    if v.len() == 2 {
        return Some((flag, None));
    }
    let rest = slice_chars(v.as_slice(), 2, v.len());
    Some((flag, Some(string_of(rest.as_slice()))))
}

/// The commands whose target arguments are resolved when they are queued.
pub open spec fn queue_target_commands() -> Seq<Seq<char>> {
    seq![
        "break-pane"@,
        "capture-pane"@,
        "display-message"@,
        "display-menu"@,
        "display-panes"@,
        "display-popup"@,
        "has-session"@,
        "if-shell"@,
        "join-pane"@,
        "kill-pane"@,
        "kill-session"@,
        "kill-window"@,
        "last-pane"@,
        "last-window"@,
        "list-panes"@,
        "list-windows"@,
        "move-pane"@,
        "move-window"@,
        "new-window"@,
        "next-layout"@,
        "next-window"@,
        "paste-buffer"@,
        "pipe-pane"@,
        "previous-layout"@,
        "previous-window"@,
        "rename-session"@,
        "rename-window"@,
        "resize-pane"@,
        "resize-window"@,
        "respawn-pane"@,
        "respawn-window"@,
        "rotate-window"@,
        "select-layout"@,
        "select-pane"@,
        "send-prefix"@,
        "select-window"@,
        "send-keys"@,
        "set-environment"@,
        "set-hook"@,
        "set-option"@,
        "set-window-option"@,
        "show-environment"@,
        "show-hooks"@,
        "show-options"@,
        "show-window-options"@,
        "split-window"@,
        "swap-pane"@,
        "swap-window"@,
        "switch-client"@,
    ]
}

/// Whether the target arguments of `command_name` are resolved when the
/// command is queued.
pub fn queue_target_resolution_enabled(command_name: &str) -> (r: bool)
    ensures
        r == queue_target_commands().contains(command_name@),
{
    let names: Vec<&str> = vec![
        "break-pane",
        "capture-pane",
        "display-message",
        "display-menu",
        "display-panes",
        "display-popup",
        "has-session",
        "if-shell",
        "join-pane",
        "kill-pane",
        "kill-session",
        "kill-window",
        "last-pane",
        "last-window",
        "list-panes",
        "list-windows",
        "move-pane",
        "move-window",
        "new-window",
        "next-layout",
        "next-window",
        "paste-buffer",
        "pipe-pane",
        "previous-layout",
        "previous-window",
        "rename-session",
        "rename-window",
        "resize-pane",
        "resize-window",
        "respawn-pane",
        "respawn-window",
        "rotate-window",
        "select-layout",
        "select-pane",
        "send-prefix",
        "select-window",
        "send-keys",
        "set-environment",
        "set-hook",
        "set-option",
        "set-window-option",
        "show-environment",
        "show-hooks",
        "show-options",
        "show-window-options",
        "split-window",
        "swap-pane",
        "swap-window",
        "switch-client",
    ];
    proof {
        assert(str_views(names@) =~= queue_target_commands());
    }
    str_in_list(command_name, &names)
}

// ---------------------------------------------------------------------------
// Hook targets
// ---------------------------------------------------------------------------

/// What kind of target a `-t` value is looked up as.
#[derive(Debug, Clone, Copy, PartialEq, Eq, Structural)]
pub enum TargetFindType {
    Session,
    Window,
    Pane,
}

/// The kind of target that `set-hook -t` or `show-hooks -t` names: a pane
/// with `-p` or a pane-looking value (`%id`, or with a `.`), a window with
/// `-w` or a window-looking value (`@id`, or a non-empty part after the last
/// `:`), else a session.
pub open spec fn hook_find_type(value: Seq<char>, arguments: Seq<Seq<char>>) -> TargetFindType {
    if arguments.contains("-p"@) {
        TargetFindType::Pane
    } else if arguments.contains("-w"@) {
        TargetFindType::Window
    } else if (value.len() > 0 && value[0] == '%') || value.contains('.') {
        TargetFindType::Pane
    } else if (value.len() > 0 && value[0] == '@') || (value.contains(':') && value.last() != ':') {
        TargetFindType::Window
    } else {
        TargetFindType::Session
    }
}

fn any_argument_is(arguments: &[String], lit: &str) -> (r: bool)
    ensures
        r == string_views(arguments@).contains(lit@),
{
    let mut i: usize = 0;
    while i < arguments.len()
        invariant
            i <= arguments@.len(),
            forall|j: int| 0 <= j < i ==> arguments@[j]@ != lit@,
        decreases arguments.len() - i,
    {
        if str_eq(arguments[i].as_str(), lit) {
            proof {
                assert(string_views(arguments@)[i as int] == lit@);
            }
            return true;
        }
        i = i + 1;
    }
    proof {
        if string_views(arguments@).contains(lit@) {
            let j = choose|j: int| 0 <= j < string_views(arguments@).len() && string_views(arguments@)[j] == lit@;
            assert(arguments@[j]@ == lit@);
        }
    }
    false
}

/// Decides what kind of target a hook command's `-t` value names.
pub fn hook_target_find_type(value: &str, arguments: &[String]) -> (r: TargetFindType)
    ensures
        r == hook_find_type(value@, string_views(arguments@)),
{
    if any_argument_is(arguments, "-p") {
        return TargetFindType::Pane;
    }
    if any_argument_is(arguments, "-w") {
        return TargetFindType::Window;
    }
    let v = chars_of(value);
    if (v.len() > 0 && v[0] == '%') || contains_char(v.as_slice(), '.') {
        return TargetFindType::Pane;
    }
    if (v.len() > 0 && v[0] == '@') || (contains_char(v.as_slice(), ':') && v[v.len() - 1] != ':') {
        return TargetFindType::Window;
    }
    TargetFindType::Session
}

// ---------------------------------------------------------------------------
// Resolving target arguments of queued commands
// ---------------------------------------------------------------------------

/// `ok` with `prefix` put in front of its list; an error passes through.
pub open spec fn prepend_ok<E>(prefix: Seq<Seq<char>>, r: Result<Seq<Seq<char>>, E>) -> Result<
    Seq<Seq<char>>,
    E,
> {
    match r {
        Ok(rest) => Ok(prefix + rest),
        Err(e) => Err(e),
    }
}

/// The arguments with the value of each target flag (one of `target_flags`)
/// replaced by what `resolve` makes of it, and the flag written on its own;
/// other arguments, and everything after `--`, stay as they are. A target
/// flag with no value left keeps its argument and ends the list. The first
/// failure of `resolve` is the result.
pub open spec fn resolved_arguments<E>(
    args: Seq<Seq<char>>,
    target_flags: Seq<char>,
    resolve: spec_fn(char, Seq<char>) -> Result<Seq<char>, E>,
) -> Result<Seq<Seq<char>>, E>
    decreases args.len(),
{
    if args.len() == 0 {
        Ok(Seq::empty())
    } else {
        let a = args[0];
        let rest = args.drop_first();
        if a == "--"@ {
            Ok(args)
        } else {
            match short_flag_parts(a) {
                None => prepend_ok(seq![a], resolved_arguments(rest, target_flags, resolve)),
                Some((flag, attached)) => if !target_flags.contains(flag) {
                    prepend_ok(seq![a], resolved_arguments(rest, target_flags, resolve))
                } else {
                    match attached {
                        Some(value) => match resolve(flag, value) {
                            Ok(r) => prepend_ok(
                                seq![seq!['-', flag], r],
                                resolved_arguments(rest, target_flags, resolve),
                            ),
                            Err(e) => Err(e),
                        },
                        None => if rest.len() == 0 {
                            Ok(seq![a])
                        } else {
                            match resolve(flag, rest[0]) {
                                Ok(r) => prepend_ok(
                                    seq![seq!['-', flag], r],
                                    resolved_arguments(rest.drop_first(), target_flags, resolve),
                                ),
                                Err(e) => Err(e),
                            }
                        },
                    }
                },
            }
        }
    }
}

/// Whether `resolve` answers as the function `f` does.
pub open spec fn resolves_as<E, R: Fn(char, &String) -> Result<String, E>>(
    resolve: R,
    f: spec_fn(char, Seq<char>) -> Result<Seq<char>, E>,
) -> bool {
    forall|c: char, v: String, r: Result<String, E>|
        #[trigger] resolve.ensures((c, &v), r) ==> match r {
            Ok(s) => f(c, v@) == Ok::<Seq<char>, E>(s@),
            Err(e) => f(c, v@) == Err::<Seq<char>, E>(e),
        }
}

fn flag_string(flag: char) -> (s: String)
    ensures
        s@ == seq!['-', flag],
{
    let mut s = String::new();
    crate::text::string_push(&mut s, '-');
    crate::text::string_push(&mut s, flag);
    proof {
        assert(s@ =~= seq!['-', flag]);
    }
    s
}

fn char_listed(c: char, list: &[char]) -> (r: bool)
    ensures
        r == list@.contains(c),
{
    let mut i: usize = 0;
    while i < list.len()
        invariant
            i <= list@.len(),
            forall|j: int| 0 <= j < i ==> list@[j] != c,
        decreases list.len() - i,
    {
        if list[i] == c {
            proof {
                assert(list@[i as int] == c);
            }
            return true;
        }
        i = i + 1;
    }
    false
}

/// Rewrites the target arguments of a queued command: for a command whose
/// targets are resolved at queue time, the value of each of its target flags
/// (`target_flags`) is replaced by what `resolve` makes of it. `resolve` is
/// the session store's target lookup; the outcome is exact for every answer
/// that it gives as a function of its arguments alone.
pub fn resolve_queue_target_arguments<E, R: Fn(char, &String) -> Result<String, E>>(
    command_name: &str,
    arguments: Vec<String>,
    target_flags: &[char],
    resolve: &R,
) -> (r: Result<Vec<String>, E>)
    requires
        forall|c: char, v: &String| resolve.requires((c, v)),
    ensures
        !queue_target_commands().contains(command_name@) ==> (r matches Ok(v) && string_views(v@)
            == string_views(arguments@)),
        queue_target_commands().contains(command_name@) ==> forall|
            f: spec_fn(char, Seq<char>) -> Result<Seq<char>, E>,
        |
            resolves_as(*resolve, f) ==> match r {
                Ok(v) => resolved_arguments(string_views(arguments@), target_flags@, f) == Ok::<
                    Seq<Seq<char>>,
                    E,
                >(string_views(v@)),
                Err(e) => resolved_arguments(string_views(arguments@), target_flags@, f) == Err::<
                    Seq<Seq<char>>,
                    E,
                >(e),
            },
{
    if !queue_target_resolution_enabled(command_name) {
        return Ok(arguments);
    }
    let ghost args = string_views(arguments@);
    let mut resolved: Vec<String> = Vec::new();
    let mut i: usize = 0;
    proof {
        assert forall|f: spec_fn(char, Seq<char>) -> Result<Seq<char>, E>|
            resolves_as(*resolve, f) implies resolved_arguments(args, target_flags@, f)
            == prepend_ok(string_views(resolved@), resolved_arguments(args.skip(0), target_flags@, f)) by {
            assert(args.skip(0) =~= args);
            assert(string_views(resolved@) =~= Seq::<Seq<char>>::empty());
            match resolved_arguments(args, target_flags@, f) {
                Ok(t) => {
                    assert(Seq::<Seq<char>>::empty() + t =~= t);
                },
                Err(_) => {},
            }
        }
    }
    while i < arguments.len()
        invariant
            i <= arguments@.len(),
            args == string_views(arguments@),
            queue_target_commands().contains(command_name@),
            forall|c: char, v: &String| resolve.requires((c, v)),
            forall|f: spec_fn(char, Seq<char>) -> Result<Seq<char>, E>|
                resolves_as(*resolve, f) ==> resolved_arguments(args, target_flags@, f)
                    == prepend_ok(string_views(resolved@), resolved_arguments(args.skip(i as int), target_flags@, f)),
        decreases arguments.len() - i,
    {
        let ghost rest = args.skip(i as int);
        proof {
            assert(rest[0] == arguments@[i as int]@);
            assert(rest.drop_first() =~= args.skip(i + 1));
        }
        let argument = &arguments[i];
        if crate::text::str_eq(argument.as_str(), "--") {
            let ghost before = string_views(resolved@);
            let mut j = i;
            while j < arguments.len()
                invariant
                    i <= j <= arguments@.len(),
                    args == string_views(arguments@),
                    queue_target_commands().contains(command_name@),
                    string_views(resolved@) == before + args.subrange(i as int, j as int),
                decreases arguments.len() - j,
            {
                let ghost prev = string_views(resolved@);
                resolved.push(arguments[j].clone());
                proof {
                    assert(string_views(resolved@) =~= prev.push(args[j as int]));
                    assert(args.subrange(i as int, j + 1) =~= args.subrange(i as int, j as int).push(
                        args[j as int],
                    ));
                }
                j = j + 1;
            }
            proof {
                assert(args.subrange(i as int, arguments@.len() as int) =~= rest);
            }
            return Ok(resolved);
        }
        match short_flag_argument_parts(argument.as_str()) {
            None => {
                let ghost prev = string_views(resolved@);
                resolved.push(argument.clone());
                proof {
                    assert(string_views(resolved@) =~= prev.push(rest[0]));
                    assert forall|f: spec_fn(char, Seq<char>) -> Result<Seq<char>, E>|
                        resolves_as(*resolve, f) implies resolved_arguments(args, target_flags@, f)
                        == prepend_ok(
                        string_views(resolved@),
                        resolved_arguments(args.skip(i + 1), target_flags@, f),
                    ) by {
                        assert(prev + seq![rest[0]] =~= prev.push(rest[0]));
                        match resolved_arguments(args.skip(i + 1), target_flags@, f) {
                            Ok(t) => {
                                assert(prev + (seq![rest[0]] + t) =~= prev.push(rest[0]) + t);
                            },
                            Err(_) => {},
                        }
                    }
                }
                i = i + 1;
            },
            Some((flag, attached)) => {
                if !char_listed(flag, target_flags) {
                    let ghost prev = string_views(resolved@);
                    resolved.push(argument.clone());
                    proof {
                        assert(string_views(resolved@) =~= prev.push(rest[0]));
                        assert forall|f: spec_fn(char, Seq<char>) -> Result<Seq<char>, E>|
                            resolves_as(*resolve, f) implies resolved_arguments(args, target_flags@, f)
                            == prepend_ok(
                            string_views(resolved@),
                            resolved_arguments(args.skip(i + 1), target_flags@, f),
                        ) by {
                            match resolved_arguments(args.skip(i + 1), target_flags@, f) {
                                Ok(t) => {
                                    assert(prev + (seq![rest[0]] + t) =~= prev.push(rest[0]) + t);
                                },
                                Err(_) => {},
                            }
                        }
                    }
                    i = i + 1;
                } else {
                    let (value, next) = match attached {
                        Some(v) => (v, i + 1),
                        None => {
                            if i + 1 >= arguments.len() {
                                let ghost prev = string_views(resolved@);
                                resolved.push(argument.clone());
                                proof {
                                    assert(string_views(resolved@) =~= prev.push(rest[0]));
                                    assert(rest.drop_first().len() == 0);
                                    assert forall|f: spec_fn(char, Seq<char>) -> Result<Seq<char>, E>|
                                        resolves_as(*resolve, f) implies resolved_arguments(args, target_flags@, f)
                                        == Ok::<Seq<Seq<char>>, E>(string_views(resolved@)) by {
                                        assert(prev + seq![rest[0]] =~= prev.push(rest[0]));
                                    }
                                }
                                return Ok(resolved);
                            }
                            (arguments[i + 1].clone(), i + 2)
                        },
                    };
                    let ghost value_view = value@;
                    proof {
                        if attached is None {
                            assert(rest.drop_first()[0] == arguments@[i + 1]@);
                            assert(rest.drop_first().drop_first() =~= args.skip(i + 2));
                        }
                    }
                    let outcome = resolve(flag, &value);
                    match outcome {
                        Ok(r) => {
                            let ghost prev = string_views(resolved@);
                            let ghost rv = r@;
                            resolved.push(flag_string(flag));
                            resolved.push(r);
                            proof {
                                assert(string_views(resolved@) =~= prev + seq![seq!['-', flag], rv]);
                                assert forall|f: spec_fn(char, Seq<char>) -> Result<Seq<char>, E>|
                                    resolves_as(*resolve, f) implies resolved_arguments(args, target_flags@, f)
                                    == prepend_ok(
                                    string_views(resolved@),
                                    resolved_arguments(args.skip(next as int), target_flags@, f),
                                ) by {
                                    assert(f(flag, value_view) == Ok::<Seq<char>, E>(rv));
                                    match resolved_arguments(args.skip(next as int), target_flags@, f) {
                                        Ok(t) => {
                                            assert(prev + (seq![seq!['-', flag], rv] + t) =~= prev + seq![
                                                seq!['-', flag],
                                                rv,
                                            ] + t);
                                        },
                                        Err(_) => {},
                                    }
                                }
                            }
                            i = next;
                        },
                        Err(e) => {
                            proof {
                                assert forall|f: spec_fn(char, Seq<char>) -> Result<Seq<char>, E>|
                                    resolves_as(*resolve, f) implies resolved_arguments(args, target_flags@, f)
                                    == Err::<Seq<Seq<char>>, E>(e) by {
                                    assert(f(flag, value_view) == Err::<Seq<char>, E>(e));
                                }
                            }
                            return Err(e);
                        },
                    }
                }
            },
        }
    }
    proof {
        assert forall|f: spec_fn(char, Seq<char>) -> Result<Seq<char>, E>|
            resolves_as(*resolve, f) implies resolved_arguments(args, target_flags@, f) == Ok::<
            Seq<Seq<char>>,
            E,
        >(string_views(resolved@)) by {
            assert(args.skip(i as int) =~= Seq::<Seq<char>>::empty());
            assert(string_views(resolved@) + Seq::<Seq<char>>::empty() =~= string_views(resolved@));
        }
    }
    Ok(resolved)
}

} // verus!
