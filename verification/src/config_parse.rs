use vstd::prelude::*;

use crate::source_files::string_views;
use crate::targets::{decimal_value, is_decimal_digit, lemma_decimal_value_prefix};
use crate::text::{chars_of, string_of, string_push};

verus! {

/// A command line that the scripting layer refuses.
#[derive(Debug, PartialEq, Eq)]
pub enum CommandError {
    /// `command` does not accept the flag `flag` (written with its `-`).
    UnsupportedFlag { command: String, flag: String },
    /// The argument described by `what` (such as `-t target`) is missing.
    MissingArgument { what: String },
    /// `argument` is left over, or out of place, on the command line of
    /// `command`.
    UnexpectedArgument { command: String, argument: String },
    /// `value`, given to `flag` of `command`, is not a number in range.
    InvalidNumber { command: String, flag: String, value: String },
    /// A command line that breaks a rule of the command, with the message.
    Refused(String),
    /// The argument described by `what` is a command block where a word is
    /// needed.
    BlockArgument { what: String },
}

/// The abstract value of a `CommandError`: its strings as characters.
pub enum CommandErrorView {
    UnsupportedFlag(Seq<char>, Seq<char>),
    MissingArgument(Seq<char>),
    UnexpectedArgument(Seq<char>, Seq<char>),
    InvalidNumber(Seq<char>, Seq<char>, Seq<char>),
    Refused(Seq<char>),
    BlockArgument(Seq<char>),
}

pub open spec fn error_view(e: CommandError) -> CommandErrorView {
    match e {
        CommandError::UnsupportedFlag { command, flag } => CommandErrorView::UnsupportedFlag(
            command@,
            flag@,
        ),
        CommandError::MissingArgument { what } => CommandErrorView::MissingArgument(what@),
        CommandError::UnexpectedArgument { command, argument } => CommandErrorView::UnexpectedArgument(
            command@,
            argument@,
        ),
        CommandError::InvalidNumber { command, flag, value } => CommandErrorView::InvalidNumber(
            command@,
            flag@,
            value@,
        ),
        CommandError::Refused(m) => CommandErrorView::Refused(m@),
        CommandError::BlockArgument { what } => CommandErrorView::BlockArgument(what@),
    }
}

/// A command line refused by the rules read here (`Command`), or by the
/// caller's check of a target word given to `-t` (`Target`), at the point
/// where the target is given.
#[derive(Debug, PartialEq, Eq)]
pub enum ParseError<E> {
    Command(CommandError),
    Target(E),
}

/// The abstract value of a `ParseError`.
pub enum ParseErrorView<E> {
    Command(CommandErrorView),
    Target(E),
}

pub open spec fn parse_error_view<E>(e: ParseError<E>) -> ParseErrorView<E> {
    match e {
        ParseError::Command(c) => ParseErrorView::Command(error_view(c)),
        ParseError::Target(t) => ParseErrorView::Target(t),
    }
}

/// Whether `check` answers on each target word as `chk` does.
pub open spec fn checks_targets<E, F: Fn(&String) -> Result<(), E>>(
    check: F,
    chk: spec_fn(Seq<char>) -> Result<(), E>,
) -> bool {
    forall|s: String, r: Result<(), E>| #[trigger] check.ensures((&s,), r) ==> r == chk(s@)
}

/// A refusal by the rules read here.
pub open spec fn refused<E>(e: CommandErrorView) -> ParseErrorView<E> {
    ParseErrorView::Command(e)
}

/// The views of an optional string.
pub open spec fn opt_view(o: Option<String>) -> Option<Seq<char>> {
    match o {
        Some(s) => Some(s@),
        None => None,
    }
}

/// The flag character of a token that is exactly `-` and one character.
pub open spec fn single_flag(t: Seq<char>) -> Option<char> {
    if t.len() == 2 && t[0] == '-' {
        Some(t[1])
    } else {
        None
    }
}

/// Reads the flag character of a token that is exactly `-` and one character.
pub fn token_flag(t: &str) -> (r: Option<char>)
    ensures
        r == single_flag(t@),
{
    let v = chars_of(t);
    if v.len() == 2 && v[0] == '-' {
        Some(v[1])
    } else {
        None
    }
}

/// A token that starts with `-`.
pub open spec fn starts_with_dash(t: Seq<char>) -> bool {
    t.len() > 0 && t[0] == '-'
}

pub fn token_starts_with_dash(t: &str) -> (r: bool)
    ensures
        r == starts_with_dash(t@),
{
    let v = chars_of(t);
    v.len() > 0 && v[0] == '-'
}

/// `s` without one leading `+`.
pub open spec fn strip_plus(s: Seq<char>) -> Seq<char> {
    if s.len() > 0 && s[0] == '+' {
        s.drop_first()
    } else {
        s
    }
}

/// Every character of `d` is a decimal digit.
pub open spec fn all_decimal(d: Seq<char>) -> bool {
    forall|i: int| 0 <= i < d.len() ==> is_decimal_digit(#[trigger] d[i])
}

/// `str::parse::<u16>`: an optional `+`, then at least one decimal digit,
/// with a value that fits in 16 bits.
pub open spec fn parse_u16_spec(s: Seq<char>) -> Option<u16> {
    let digits = strip_plus(s);
    if digits.len() > 0 && all_decimal(digits) && decimal_value(digits) <= u16::MAX {
        Some(decimal_value(digits) as u16)
    } else {
        None
    }
}

/// Reads a decimal `u16` as `str::parse::<u16>` does.
pub fn parse_u16_value(text: &str) -> (r: Option<u16>)
    ensures
        r == parse_u16_spec(text@),
{
    let s = chars_of(text);
    let mut start: usize = 0;
    if s.len() > 0 && s[0] == '+' {
        start = 1;
    }
    let ghost digits = s@.subrange(start as int, s@.len() as int);
    proof {
        if s@.len() > 0 && s@[0] == '+' {
            assert(digits =~= s@.drop_first());
        } else {
            assert(digits =~= s@);
        }
    }
    if start >= s.len() {
        return None;
    }
    let mut value: u32 = 0;
    let mut i = start;
    proof {
        assert(s@.subrange(start as int, start as int) =~= Seq::<char>::empty());
    }
    while i < s.len()
        invariant
            start <= i <= s@.len(),
            s@ == text@,
            digits == s@.subrange(start as int, s@.len() as int),
            digits == strip_plus(s@),
            digits.len() > 0,
            value == decimal_value(s@.subrange(start as int, i as int)),
            value <= u16::MAX,
            forall|k: int| start <= k < i ==> is_decimal_digit(#[trigger] s@[k]),
        decreases s.len() - i,
    {
        proof {
            assert(s@.subrange(start as int, i + 1).drop_last() =~= s@.subrange(
                start as int,
                i as int,
            ));
        }
        let c = s[i];
        if !('0' <= c && c <= '9') {
            proof {
                assert(digits[i - start] == c);
                assert(!is_decimal_digit(digits[i - start]));
                assert(!all_decimal(digits));
            }
            return None;
        }
        value = value * 10 + (c as u32 - 0x30);
        i = i + 1;
        if value > 0xffff {
            proof {
                lemma_decimal_value_prefix(digits, i - start);
                assert(digits.take(i - start) =~= s@.subrange(start as int, i as int));
            }
            return None;
        }
    }
    proof {
        assert forall|k: int| 0 <= k < digits.len() implies is_decimal_digit(#[trigger] digits[k]) by {
            assert(digits[k] == s@[start + k]);
        }
        assert(all_decimal(digits));
        assert(s@.subrange(start as int, i as int) =~= digits);
    }
    Some(value as u16)
}

/// The value of the decimal digits `chars[start..]` when there is at least
/// one, they are all digits, and the value is at most `limit`.
fn decimal_up_to(chars: &Vec<char>, start: usize, limit: u64) -> (r: Option<u64>)
    requires
        start <= chars@.len(),
    ensures
        ({
            let d = chars@.subrange(start as int, chars@.len() as int);
            r == (if d.len() > 0 && all_decimal(d) && decimal_value(d) <= limit {
                Some(decimal_value(d) as u64)
            } else {
                None
            })
        }),
{
    let ghost d = chars@.subrange(start as int, chars@.len() as int);
    if start >= chars.len() {
        return None;
    }
    let mut value: u128 = 0;
    let mut i = start;
    proof {
        assert(chars@.subrange(start as int, start as int) =~= Seq::<char>::empty());
    }
    while i < chars.len()
        invariant
            start <= i <= chars@.len(),
            start < chars@.len(),
            d == chars@.subrange(start as int, chars@.len() as int),
            value == decimal_value(chars@.subrange(start as int, i as int)),
            value <= limit,
            forall|k: int| start <= k < i ==> is_decimal_digit(#[trigger] chars@[k]),
        decreases chars.len() - i,
    {
        proof {
            assert(chars@.subrange(start as int, i + 1).drop_last() =~= chars@.subrange(
                start as int,
                i as int,
            ));
        }
        let c = chars[i];
        if !('0' <= c && c <= '9') {
            proof {
                assert(d[i - start] == c);
                assert(!all_decimal(d));
            }
            return None;
        }
        value = value * 10 + (c as u128 - 0x30);
        i = i + 1;
        if value > limit as u128 {
            proof {
                lemma_decimal_value_prefix(d, i - start);
                assert(d.take(i - start) =~= chars@.subrange(start as int, i as int));
            }
            return None;
        }
    }
    proof {
        assert forall|k: int| 0 <= k < d.len() implies is_decimal_digit(#[trigger] d[k]) by {
            assert(d[k] == chars@[start + k]);
        }
        assert(chars@.subrange(start as int, i as int) =~= d);
    }
    Some(value as u64)
}

/// `str::parse::<i64>`: an optional `+` or `-`, then at least one decimal
/// digit, with a value that fits in 64 signed bits.
pub open spec fn parse_i64_spec(s: Seq<char>) -> Option<i64> {
    if s.len() > 0 && s[0] == '-' {
        let d = s.drop_first();
        if d.len() > 0 && all_decimal(d) && decimal_value(d) <= 0x8000_0000_0000_0000 {
            Some((0 - decimal_value(d)) as i64)
        } else {
            None
        }
    } else {
        let d = strip_plus(s);
        if d.len() > 0 && all_decimal(d) && decimal_value(d) <= i64::MAX {
            Some(decimal_value(d) as i64)
        } else {
            None
        }
    }
}

/// Reads a decimal `i64` as `str::parse::<i64>` does.
pub fn parse_i64_value(text: &str) -> (r: Option<i64>)
    ensures
        r == parse_i64_spec(text@),
{
    let s = chars_of(text);
    if s.len() > 0 && s[0] == '-' {
        proof {
            assert(s@.subrange(1, s@.len() as int) =~= text@.drop_first());
        }
        match decimal_up_to(&s, 1, 0x8000_0000_0000_0000) {
            None => None,
            Some(v) => {
                let r: i128 = 0 - (v as i128);
                Some(r as i64)
            },
        }
    } else {
        let start: usize = if s.len() > 0 && s[0] == '+' {
            1
        } else {
            0
        };
        proof {
            if start == 1 {
                assert(s@.subrange(1, s@.len() as int) =~= strip_plus(text@));
            } else {
                assert(s@.subrange(0, s@.len() as int) =~= strip_plus(text@));
            }
        }
        match decimal_up_to(&s, start, 0x7fff_ffff_ffff_ffff) {
            None => None,
            Some(v) => Some(v as i64),
        }
    }
}

/// `str::parse::<u64>`: an optional `+`, then at least one decimal digit,
/// with a value that fits in 64 bits.
pub open spec fn parse_u64_spec(s: Seq<char>) -> Option<u64> {
    let d = strip_plus(s);
    if d.len() > 0 && all_decimal(d) && decimal_value(d) <= u64::MAX {
        Some(decimal_value(d) as u64)
    } else {
        None
    }
}

/// Reads a decimal `u64` as `str::parse::<u64>` does.
pub fn parse_u64_value(text: &str) -> (r: Option<u64>)
    ensures
        r == parse_u64_spec(text@),
{
    let s = chars_of(text);
    let start: usize = if s.len() > 0 && s[0] == '+' {
        1
    } else {
        0
    };
    proof {
        if start == 1 {
            assert(s@.subrange(1, s@.len() as int) =~= strip_plus(text@));
        } else {
            assert(s@.subrange(0, s@.len() as int) =~= strip_plus(text@));
        }
    }
    decimal_up_to(&s, start, u64::MAX)
}

pub fn string_from(s: &str) -> (r: String)
    ensures
        r@ == s@,
{
    String::from_str(s)
}

/// The flags of a `set-option` or `set-window-option` command line.
#[derive(Debug, Clone, Copy, PartialEq, Eq, Structural)]
pub struct SetOptionFlags {
    pub global: bool,
    pub server: bool,
    pub window: bool,
    pub pane: bool,
    pub append: bool,
    pub only_if_unset: bool,
    pub unset: bool,
    pub unset_pane_overrides: bool,
}

/// The flags after `c` has been applied, or `None` when `c` is not a
/// `set-option` flag.
pub open spec fn apply_set_option_flag(flags: SetOptionFlags, c: char) -> Option<SetOptionFlags> {
    if c == 'g' {
        Some(SetOptionFlags { global: true, ..flags })
    } else if c == 's' {
        Some(SetOptionFlags { server: true, ..flags })
    } else if c == 'w' {
        Some(SetOptionFlags { window: true, ..flags })
    } else if c == 'p' {
        Some(SetOptionFlags { pane: true, ..flags })
    } else if c == 'q' {
        Some(flags)
    } else if c == 'a' {
        Some(SetOptionFlags { append: true, ..flags })
    } else if c == 'o' {
        Some(SetOptionFlags { only_if_unset: true, ..flags })
    } else if c == 'u' {
        Some(SetOptionFlags { unset: true, ..flags })
    } else if c == 'U' {
        Some(SetOptionFlags { unset_pane_overrides: true, unset: true, window: true, ..flags })
    } else {
        None
    }
}

/// The flags after the characters of `cluster` have been applied in order,
/// and the first character that is not a flag, if any (the flags applied
/// before it are kept).
pub open spec fn apply_set_option_cluster(flags: SetOptionFlags, cluster: Seq<char>) -> (
    SetOptionFlags,
    Option<char>,
)
    decreases cluster.len(),
{
    if cluster.len() == 0 {
        (flags, None)
    } else {
        match apply_set_option_flag(flags, cluster[0]) {
            Some(next) => apply_set_option_cluster(next, cluster.drop_first()),
            None => (flags, Some(cluster[0])),
        }
    }
}

impl SetOptionFlags {
    /// No flag set, except the window scope for `set-window-option`.
    pub fn new(force_window: bool) -> (flags: Self)
        ensures
            flags == (SetOptionFlags {
                global: false,
                server: false,
                window: force_window,
                pane: false,
                append: false,
                only_if_unset: false,
                unset: false,
                unset_pane_overrides: false,
            }),
    {
        Self {
            global: false,
            server: false,
            window: force_window,
            pane: false,
            append: false,
            only_if_unset: false,
            unset: false,
            unset_pane_overrides: false,
        }
    }

    /// How many of the server, window and pane scopes are selected.
    pub fn scope_count(&self) -> (n: usize)
        ensures
            n == (if self.server {
                1nat
            } else {
                0nat
            }) + (if self.window {
                1nat
            } else {
                0nat
            }) + (if self.pane {
                1nat
            } else {
                0nat
            }),
    {
        let mut n: usize = 0;
        if self.server {
            n = n + 1;
        }
        if self.window {
            n = n + 1;
        }
        if self.pane {
            n = n + 1;
        }
        n
    }

    /// Applies a compact flag cluster such as `-gw` (its first character is
    /// the `-`). A character that is not a `set-option` flag is refused, and
    /// the flags before it stay applied.
    pub fn apply_cluster(&mut self, command_name: &str, token: &str) -> (r: Result<(), CommandError>)
        requires
            token@.len() > 0,
            (token@[0] as u32) < 0x80,
        ensures
            *final(self) == apply_set_option_cluster(
                *old(self),
                token@.subrange(1, token@.len() as int),
            ).0,
            match r {
                Ok(()) => apply_set_option_cluster(
                    *old(self),
                    token@.subrange(1, token@.len() as int),
                ).1 is None,
                Err(e) => apply_set_option_cluster(
                    *old(self),
                    token@.subrange(1, token@.len() as int),
                ).1 matches Some(c) && e matches CommandError::UnsupportedFlag { command, flag }
                    && command@ == command_name@ && flag@ == seq!['-', c],
            },
    {
        let chars = chars_of(token);
        let ghost start = *self;
        let mut i: usize = 1;
        proof {
            assert(token@.subrange(1, token@.len() as int) =~= chars@.subrange(1, chars@.len() as int));
        }
        while i < chars.len()
            invariant
                1 <= i <= chars@.len(),
                chars@ == token@,
                start == *old(self),
                apply_set_option_cluster(start, chars@.subrange(1, chars@.len() as int))
                    == apply_set_option_cluster(*self, chars@.subrange(i as int, chars@.len() as int)),
            decreases chars.len() - i,
        {
            let c = chars[i];
            proof {
                assert(chars@.subrange(i as int, chars@.len() as int).drop_first() =~= chars@.subrange(
                    i + 1,
                    chars@.len() as int,
                ));
            }
            if c == 'g' {
                self.global = true;
            } else if c == 's' {
                self.server = true;
            } else if c == 'w' {
                self.window = true;
            } else if c == 'p' {
                self.pane = true;
            } else if c == 'q' {
            } else if c == 'a' {
                self.append = true;
            } else if c == 'o' {
                self.only_if_unset = true;
            } else if c == 'u' {
                self.unset = true;
            } else if c == 'U' {
                self.unset_pane_overrides = true;
                self.unset = true;
                self.window = true;
            } else {
                let mut flag = String::new();
                string_push(&mut flag, '-');
                string_push(&mut flag, c);
                let command = string_of(chars_of(command_name).as_slice());
                proof {
                    assert(flag@ =~= seq!['-', c]);
                    let rest = chars@.subrange(i as int, chars@.len() as int);
                    assert(rest[0] == c);
                    assert(apply_set_option_flag(*self, c) is None);
                    assert(apply_set_option_cluster(*self, rest) == (*self, Some(c)));
                }
                return Err(CommandError::UnsupportedFlag { command, flag });
            }
            i = i + 1;
        }
        proof {
            assert(chars@.subrange(i as int, chars@.len() as int) =~= Seq::<char>::empty());
        }
        Ok(())
    }
}

/// A compact cluster of `set-option` flags: `-` and then at least two flag
/// characters.
pub open spec fn set_option_flag_cluster(s: Seq<char>, force_window: bool) -> bool {
    s.len() > 2 && s[0] == '-' && s[1] != '-' && forall|i: int|
        1 <= i < s.len() ==> set_option_cluster_flag(force_window, #[trigger] s[i])
}

/// A compact cluster of `show-options` flags: `-` and then at least two flag
/// characters.
pub open spec fn show_options_flag_cluster(s: Seq<char>) -> bool {
    s.len() > 2 && s[0] == '-' && s[1] != '-' && forall|i: int|
        1 <= i < s.len() ==> show_options_cluster_flag(#[trigger] s[i])
}

/// The characters that a `set-option` (or, when `force_window`,
/// `set-window-option`) flag cluster may hold.
pub open spec fn set_option_cluster_flag(force_window: bool, c: char) -> bool {
    c == 'g' || c == 'a' || c == 'o' || c == 'q' || c == 'u' || (!force_window && (c == 's' || c
        == 'w' || c == 'p' || c == 'U')) || (force_window && c == 'w')
}

/// The characters that a `show-options` flag cluster may hold.
pub open spec fn show_options_cluster_flag(c: char) -> bool {
    c == 'A' || c == 'g' || c == 's' || c == 'w' || c == 'p' || c == 'v' || c == 'q'
}

/// Whether `token` is a compact cluster of `set-option` flags such as `-gw`.
pub fn is_set_option_flag_cluster(token: &str, force_window: bool) -> (r: bool)
    ensures
        r == set_option_flag_cluster(token@, force_window),
{
    let v = chars_of(token);
    if v.len() <= 2 || v[0] != '-' || v[1] == '-' {
        return false;
    }
    let mut i: usize = 1;
    while i < v.len()
        invariant
            1 <= i <= v@.len(),
            v@ == token@,
            forall|j: int| 1 <= j < i ==> set_option_cluster_flag(force_window, #[trigger] v@[j]),
        decreases v.len() - i,
    {
        let c = v[i];
        let ok = c == 'g' || c == 'a' || c == 'o' || c == 'q' || c == 'u' || (!force_window && (c
            == 's' || c == 'w' || c == 'p' || c == 'U')) || (force_window && c == 'w');
        if !ok {
            return false;
        }
        i = i + 1;
    }
    true
}

/// Whether `token` is a compact cluster of `show-options` flags such as `-gv`.
pub fn is_show_options_flag_cluster(token: &str) -> (r: bool)
    ensures
        r == show_options_flag_cluster(token@),
{
    let v = chars_of(token);
    if v.len() <= 2 || v[0] != '-' || v[1] == '-' {
        return false;
    }
    let mut i: usize = 1;
    while i < v.len()
        invariant
            1 <= i <= v@.len(),
            v@ == token@,
            forall|j: int| 1 <= j < i ==> show_options_cluster_flag(#[trigger] v@[j]),
        decreases v.len() - i,
    {
        let c = v[i];
        if !(c == 'A' || c == 'g' || c == 's' || c == 'w' || c == 'p' || c == 'v' || c == 'q') {
            return false;
        }
        i = i + 1;
    }
    true
}

// ---------------------------------------------------------------------------
// The `set-option` command line
// ---------------------------------------------------------------------------

/// The flags after a single-flag token `-c` of `set-option` (or, when
/// `force_window`, `set-window-option`), or `None` when `-c` is not one.
pub open spec fn set_option_single(flags: SetOptionFlags, c: char, force_window: bool) -> Option<
    SetOptionFlags,
> {
    if c == 'g' {
        Some(SetOptionFlags { global: true, ..flags })
    } else if c == 's' {
        Some(SetOptionFlags { server: true, ..flags })
    } else if c == 'w' {
        if force_window {
            Some(flags)
        } else {
            Some(SetOptionFlags { window: true, ..flags })
        }
    } else if c == 'p' && !force_window {
        Some(SetOptionFlags { pane: true, ..flags })
    } else if c == 'q' {
        Some(flags)
    } else if c == 'a' {
        Some(SetOptionFlags { append: true, ..flags })
    } else if c == 'o' {
        Some(SetOptionFlags { only_if_unset: true, ..flags })
    } else if c == 'u' {
        Some(SetOptionFlags { unset: true, ..flags })
    } else if c == 'U' && !force_window {
        Some(SetOptionFlags { unset_pane_overrides: true, unset: true, window: true, ..flags })
    } else {
        None
    }
}

/// The leading flags of a `set-option` command line from token `i` on: the
/// flags, the raw `-t` target, and where the flags end. `--` ends them and is
/// consumed; any other token that is not a flag ends them and is kept. A
/// target word that `chk` refuses stops them with its error.
pub open spec fn set_option_flag_loop<E>(
    args: Seq<Seq<char>>,
    i: int,
    force_window: bool,
    chk: spec_fn(Seq<char>) -> Result<(), E>,
    flags: SetOptionFlags,
    target: Option<Seq<char>>,
) -> Result<(SetOptionFlags, Option<Seq<char>>, int), ParseErrorView<E>>
    decreases args.len() - i,
{
    if i < 0 || i >= args.len() {
        Ok((flags, target, i))
    } else {
        let t = args[i];
        if single_flag(t) == Some('-') {
            Ok((flags, target, i + 1))
        } else if single_flag(t) == Some('t') {
            if i + 1 < args.len() {
                match chk(args[i + 1]) {
                    Err(e) => Err(ParseErrorView::Target(e)),
                    Ok(_) => set_option_flag_loop(
                        args,
                        i + 2,
                        force_window,
                        chk,
                        flags,
                        Some(args[i + 1]),
                    ),
                }
            } else {
                Err(refused(CommandErrorView::MissingArgument("-t target"@)))
            }
        } else if single_flag(t) is Some && set_option_single(flags, single_flag(t)->0, force_window) is Some {
            set_option_flag_loop(
                args,
                i + 1,
                force_window,
                chk,
                set_option_single(flags, single_flag(t)->0, force_window)->0,
                target,
            )
        } else if set_option_flag_cluster(t, force_window) {
            set_option_flag_loop(
                args,
                i + 1,
                force_window,
                chk,
                apply_set_option_cluster(flags, t.subrange(1, t.len() as int)).0,
                target,
            )
        } else {
            Ok((flags, target, i))
        }
    }
}

/// What a `set-option` command line says: its flags, its raw `-t` target,
/// the option and the value.
pub struct SetOptionTokens {
    pub flags: SetOptionFlags,
    pub target: Option<String>,
    pub option: String,
    pub value: Option<String>,
}

pub struct SetOptionTokensView {
    pub flags: SetOptionFlags,
    pub target: Option<Seq<char>>,
    pub option: Seq<char>,
    pub value: Option<Seq<char>>,
}

impl SetOptionTokens {
    pub open spec fn view(&self) -> SetOptionTokensView {
        SetOptionTokensView {
            flags: self.flags,
            target: opt_view(self.target),
            option: self.option@,
            value: opt_view(self.value),
        }
    }
}

pub open spec fn scope_total(flags: SetOptionFlags) -> int {
    (flags.server as int) + (flags.window as int) + (flags.pane as int)
}

/// A `set-option` command line read: the flags, then at most one of `-s`,
/// `-w` and `-p`, then the option (required), an optional value, and nothing
/// more. `chk` is the check of a target word.
pub open spec fn set_option_tokens_spec<E>(
    args: Seq<Seq<char>>,
    force_window: bool,
    chk: spec_fn(Seq<char>) -> Result<(), E>,
) -> Result<SetOptionTokensView, ParseErrorView<E>> {
    match set_option_flag_loop(args, 0, force_window, chk, set_option_initial(force_window), None) {
        Err(e) => Err(e),
        Ok((flags, target, i)) => if scope_total(flags) > 1 {
            Err(refused(CommandErrorView::Refused("set-option accepts at most one of -s, -w, or -p"@)))
        } else if i >= args.len() {
            Err(refused(CommandErrorView::MissingArgument("set-option option"@)))
        } else {
            let value = if i + 1 < args.len() {
                Some(args[i + 1])
            } else {
                None
            };
            let next = if i + 1 < args.len() {
                i + 2
            } else {
                i + 1
            };
            if next < args.len() {
                Err(refused(CommandErrorView::UnexpectedArgument("set-option"@, args[next])))
            } else {
                Ok(SetOptionTokensView { flags, target, option: args[i], value })
            }
        },
    }
}

pub open spec fn set_option_initial(force_window: bool) -> SetOptionFlags {
    SetOptionFlags {
        global: false,
        server: false,
        window: force_window,
        pane: false,
        append: false,
        only_if_unset: false,
        unset: false,
        unset_pane_overrides: false,
    }
}

fn set_option_single_exec(flags: SetOptionFlags, c: char, force_window: bool) -> (r: Option<
    SetOptionFlags,
>)
    ensures
        r == set_option_single(flags, c, force_window),
{
    if c == 'g' {
        Some(SetOptionFlags { global: true, ..flags })
    } else if c == 's' {
        Some(SetOptionFlags { server: true, ..flags })
    } else if c == 'w' {
        if force_window {
            Some(flags)
        } else {
            Some(SetOptionFlags { window: true, ..flags })
        }
    } else if c == 'p' && !force_window {
        Some(SetOptionFlags { pane: true, ..flags })
    } else if c == 'q' {
        Some(flags)
    } else if c == 'a' {
        Some(SetOptionFlags { append: true, ..flags })
    } else if c == 'o' {
        Some(SetOptionFlags { only_if_unset: true, ..flags })
    } else if c == 'u' {
        Some(SetOptionFlags { unset: true, ..flags })
    } else if c == 'U' && !force_window {
        Some(SetOptionFlags { unset_pane_overrides: true, unset: true, window: true, ..flags })
    } else {
        None
    }
}

/// Reads a `set-option` (or, when `force_window`, `set-window-option`)
/// command line. `check` checks each word given to `-t` where it is given;
/// the target is returned as written, for the caller to look up.
pub fn parse_set_option_tokens<E, F: Fn(&String) -> Result<(), E>>(
    args: &[String],
    force_window: bool,
    check: &F,
) -> (r: Result<SetOptionTokens, ParseError<E>>)
    requires
        forall|s: &String| check.requires((s,)),
    ensures
        forall|chk: spec_fn(Seq<char>) -> Result<(), E>|
            checks_targets(*check, chk) ==> match r {
                Ok(t) => set_option_tokens_spec(string_views(args@), force_window, chk) == Ok::<
                    SetOptionTokensView,
                    ParseErrorView<E>,
                >(t.view()),
                Err(e) => set_option_tokens_spec(string_views(args@), force_window, chk) == Err::<
                    SetOptionTokensView,
                    ParseErrorView<E>,
                >(parse_error_view(e)),
            },
{
    let ghost a = string_views(args@);
    let command_name = if force_window {
        "set-window-option"
    } else {
        "set-option"
    };
    let mut flags = SetOptionFlags::new(force_window);
    let mut target: Option<String> = None;
    let mut i: usize = 0;
    let mut done = false;
    while i < args.len() && !done
        invariant
            i <= args@.len(),
            a == string_views(args@),
            forall|s: &String| check.requires((s,)),
            forall|chk: spec_fn(Seq<char>) -> Result<(), E>|
                checks_targets(*check, chk) ==> {
                    &&& !done ==> set_option_flag_loop(
                        a,
                        0,
                        force_window,
                        chk,
                        set_option_initial(force_window),
                        None,
                    ) == set_option_flag_loop(a, i as int, force_window, chk, flags, opt_view(target))
                    &&& done ==> set_option_flag_loop(
                        a,
                        0,
                        force_window,
                        chk,
                        set_option_initial(force_window),
                        None,
                    ) == Ok::<(SetOptionFlags, Option<Seq<char>>, int), ParseErrorView<E>>(
                        (flags, opt_view(target), i as int),
                    )
                },
        decreases args.len() - i + (if done { 0int } else { 1int }),
    {
        let t = args[i].as_str();
        proof {
            assert(a[i as int] == t@);
        }
        match token_flag(t) {
            Some('-') => {
                i = i + 1;
                done = true;
            },
            Some('t') => {
                if i + 1 >= args.len() {
                    return Err(
                        ParseError::Command(
                            CommandError::MissingArgument { what: string_from("-t target") },
                        ),
                    );
                }
                proof {
                    assert(a[i + 1] == args@[i + 1]@);
                }
                let checked = check(&args[i + 1]);
                if let Err(e) = checked {
                    return Err(ParseError::Target(e));
                }
                target = Some(args[i + 1].clone());
                i = i + 2;
            },
            Some(c) => {
                match set_option_single_exec(flags, c, force_window) {
                    Some(next) => {
                        flags = next;
                        i = i + 1;
                    },
                    None => {
                        if is_set_option_flag_cluster(t, force_window) {
                            let _ = flags.apply_cluster(command_name, t);
                            i = i + 1;
                        } else {
                            done = true;
                        }
                    },
                }
            },
            None => {
                if is_set_option_flag_cluster(t, force_window) {
                    let _ = flags.apply_cluster(command_name, t);
                    i = i + 1;
                } else {
                    done = true;
                }
            },
        }
    }
    if flags.scope_count() > 1 {
        return Err(
            ParseError::Command(
                CommandError::Refused(
                    string_from("set-option accepts at most one of -s, -w, or -p"),
                ),
            ),
        );
    }
    if i >= args.len() {
        return Err(
            ParseError::Command(CommandError::MissingArgument { what: string_from("set-option option") }),
        );
    }
    let option = args[i].clone();
    let mut next = i + 1;
    let value = if next < args.len() {
        let v = args[next].clone();
        next = next + 1;
        Some(v)
    } else {
        None
    };
    if next < args.len() {
        return Err(
            ParseError::Command(
                CommandError::UnexpectedArgument {
                    command: string_from("set-option"),
                    argument: args[next].clone(),
                },
            ),
        );
    }
    Ok(SetOptionTokens { flags, target, option, value })
}

// ---------------------------------------------------------------------------
// The `show-options` command line
// ---------------------------------------------------------------------------

/// The flags of a `show-options` or `show-window-options` command line.
#[derive(Debug, Clone, Copy, PartialEq, Eq, Structural)]
pub struct ShowOptionsFlags {
    pub global: bool,
    pub server: bool,
    pub window: bool,
    pub pane: bool,
    pub value_only: bool,
    pub include_inherited: bool,
}

pub open spec fn show_options_initial(force_window: bool) -> ShowOptionsFlags {
    ShowOptionsFlags {
        global: false,
        server: false,
        window: force_window,
        pane: false,
        value_only: false,
        include_inherited: false,
    }
}

/// The command name the flags are reported against.
pub open spec fn show_command_name(force_window: bool) -> Seq<char> {
    if force_window {
        "show-window-options"@
    } else {
        "show-options"@
    }
}

/// One flag character of `show-options`: `-s`, `-w`, `-p` and `-q` are
/// refused by `show-window-options`, and a character that is no flag is
/// refused by both.
pub open spec fn show_char(flags: ShowOptionsFlags, c: char, force_window: bool) -> Result<
    ShowOptionsFlags,
    CommandErrorView,
> {
    let command = show_command_name(force_window);
    if c == 'g' {
        Ok(ShowOptionsFlags { global: true, ..flags })
    } else if c == 'v' {
        Ok(ShowOptionsFlags { value_only: true, ..flags })
    } else if c == 'A' {
        Ok(ShowOptionsFlags { include_inherited: true, ..flags })
    } else if (c == 's' || c == 'w' || c == 'p' || c == 'q') && force_window {
        Err(CommandErrorView::UnsupportedFlag(command, seq!['-', c]))
    } else if c == 's' {
        Ok(ShowOptionsFlags { server: true, ..flags })
    } else if c == 'w' {
        Ok(ShowOptionsFlags { window: true, ..flags })
    } else if c == 'p' {
        Ok(ShowOptionsFlags { pane: true, ..flags })
    } else if c == 'q' {
        Ok(flags)
    } else {
        Err(CommandErrorView::UnsupportedFlag(command, seq!['-', c]))
    }
}

/// The flag characters of a cluster, applied in order.
pub open spec fn show_cluster(flags: ShowOptionsFlags, chars: Seq<char>, force_window: bool) -> Result<
    ShowOptionsFlags,
    CommandErrorView,
>
    decreases chars.len(),
{
    if chars.len() == 0 {
        Ok(flags)
    } else {
        match show_char(flags, chars[0], force_window) {
            Ok(next) => show_cluster(next, chars.drop_first(), force_window),
            Err(e) => Err(e),
        }
    }
}

/// A single-flag token of `show-options`.
pub open spec fn show_single_flag(c: char) -> bool {
    c == 'g' || c == 's' || c == 'w' || c == 'p' || c == 'v' || c == 'A' || c == 'q'
}

/// The leading flags of a `show-options` command line from token `i` on.
pub open spec fn show_options_flag_loop<E>(
    args: Seq<Seq<char>>,
    i: int,
    force_window: bool,
    chk: spec_fn(Seq<char>) -> Result<(), E>,
    flags: ShowOptionsFlags,
    target: Option<Seq<char>>,
) -> Result<(ShowOptionsFlags, Option<Seq<char>>, int), ParseErrorView<E>>
    decreases args.len() - i,
{
    if i < 0 || i >= args.len() {
        Ok((flags, target, i))
    } else {
        let t = args[i];
        if single_flag(t) == Some('-') {
            Ok((flags, target, i + 1))
        } else if single_flag(t) == Some('t') {
            if i + 1 < args.len() {
                match chk(args[i + 1]) {
                    Err(e) => Err(ParseErrorView::Target(e)),
                    Ok(_) => show_options_flag_loop(
                        args,
                        i + 2,
                        force_window,
                        chk,
                        flags,
                        Some(args[i + 1]),
                    ),
                }
            } else {
                Err(refused(CommandErrorView::MissingArgument("-t target"@)))
            }
        } else if single_flag(t) is Some && show_single_flag(single_flag(t)->0) {
            match show_char(flags, single_flag(t)->0, force_window) {
                Ok(next) => show_options_flag_loop(args, i + 1, force_window, chk, next, target),
                Err(e) => Err(refused(e)),
            }
        } else if show_options_flag_cluster(t) {
            match show_cluster(flags, t.subrange(1, t.len() as int), force_window) {
                Ok(next) => show_options_flag_loop(args, i + 1, force_window, chk, next, target),
                Err(e) => Err(refused(e)),
            }
        } else {
            Ok((flags, target, i))
        }
    }
}

/// What a `show-options` command line says.
pub struct ShowOptionsTokens {
    pub flags: ShowOptionsFlags,
    pub target: Option<String>,
    pub name: Option<String>,
}

pub struct ShowOptionsTokensView {
    pub flags: ShowOptionsFlags,
    pub target: Option<Seq<char>>,
    pub name: Option<Seq<char>>,
}

impl ShowOptionsTokens {
    pub open spec fn view(&self) -> ShowOptionsTokensView {
        ShowOptionsTokensView { flags: self.flags, target: opt_view(self.target), name: opt_view(self.name) }
    }
}

/// A `show-options` command line read: the flags, then an optional option
/// name, and nothing more. `chk` is the check of a target word.
pub open spec fn show_options_tokens_spec<E>(
    args: Seq<Seq<char>>,
    force_window: bool,
    chk: spec_fn(Seq<char>) -> Result<(), E>,
) -> Result<ShowOptionsTokensView, ParseErrorView<E>> {
    match show_options_flag_loop(args, 0, force_window, chk, show_options_initial(force_window), None) {
        Err(e) => Err(e),
        Ok((flags, target, i)) => {
            let name = if i < args.len() {
                Some(args[i])
            } else {
                None
            };
            let next = if i < args.len() {
                i + 1
            } else {
                i
            };
            if next < args.len() {
                Err(refused(CommandErrorView::UnexpectedArgument(show_command_name(force_window), args[next])))
            } else {
                Ok(ShowOptionsTokensView { flags, target, name })
            }
        },
    }
}

fn show_char_exec(flags: ShowOptionsFlags, c: char, force_window: bool) -> (r: Result<
    ShowOptionsFlags,
    CommandError,
>)
    ensures
        match r {
            Ok(f) => show_char(flags, c, force_window) == Ok::<ShowOptionsFlags, CommandErrorView>(f),
            Err(e) => show_char(flags, c, force_window) == Err::<ShowOptionsFlags, CommandErrorView>(
                error_view(e),
            ),
        },
{
    if c == 'g' {
        Ok(ShowOptionsFlags { global: true, ..flags })
    } else if c == 'v' {
        Ok(ShowOptionsFlags { value_only: true, ..flags })
    } else if c == 'A' {
        Ok(ShowOptionsFlags { include_inherited: true, ..flags })
    } else if (c == 's' || c == 'w' || c == 'p' || c == 'q') && force_window {
        Err(show_unsupported(c, force_window))
    } else if c == 's' {
        Ok(ShowOptionsFlags { server: true, ..flags })
    } else if c == 'w' {
        Ok(ShowOptionsFlags { window: true, ..flags })
    } else if c == 'p' {
        Ok(ShowOptionsFlags { pane: true, ..flags })
    } else if c == 'q' {
        Ok(flags)
    } else {
        Err(show_unsupported(c, force_window))
    }
}

fn show_unsupported(c: char, force_window: bool) -> (e: CommandError)
    ensures
        error_view(e) == CommandErrorView::UnsupportedFlag(show_command_name(force_window), seq!['-', c]),
{
    let command = if force_window {
        string_from("show-window-options")
    } else {
        string_from("show-options")
    };
    let mut flag = String::new();
    string_push(&mut flag, '-');
    string_push(&mut flag, c);
    proof {
        assert(flag@ =~= seq!['-', c]);
    }
    CommandError::UnsupportedFlag { command, flag }
}

/// Reads a `show-options` (or, when `force_window`, `show-window-options`)
/// command line. `check` checks each word given to `-t` where it is given;
/// the target is returned as written, for the caller to look up.
pub fn parse_show_options_tokens<E, F: Fn(&String) -> Result<(), E>>(
    args: &[String],
    force_window: bool,
    check: &F,
) -> (r: Result<ShowOptionsTokens, ParseError<E>>)
    requires
        forall|s: &String| check.requires((s,)),
    ensures
        forall|chk: spec_fn(Seq<char>) -> Result<(), E>|
            checks_targets(*check, chk) ==> match r {
                Ok(t) => show_options_tokens_spec(string_views(args@), force_window, chk) == Ok::<
                    ShowOptionsTokensView,
                    ParseErrorView<E>,
                >(t.view()),
                Err(e) => show_options_tokens_spec(string_views(args@), force_window, chk) == Err::<
                    ShowOptionsTokensView,
                    ParseErrorView<E>,
                >(parse_error_view(e)),
            },
{
    let ghost a = string_views(args@);
    let mut flags = ShowOptionsFlags {
        global: false,
        server: false,
        window: force_window,
        pane: false,
        value_only: false,
        include_inherited: false,
    };
    let mut target: Option<String> = None;
    let mut i: usize = 0;
    let mut done = false;
    while i < args.len() && !done
        invariant
            i <= args@.len(),
            a == string_views(args@),
            forall|s: &String| check.requires((s,)),
            forall|chk: spec_fn(Seq<char>) -> Result<(), E>|
                checks_targets(*check, chk) ==> {
                    &&& !done ==> show_options_flag_loop(
                        a,
                        0,
                        force_window,
                        chk,
                        show_options_initial(force_window),
                        None,
                    ) == show_options_flag_loop(a, i as int, force_window, chk, flags, opt_view(target))
                    &&& done ==> show_options_flag_loop(
                        a,
                        0,
                        force_window,
                        chk,
                        show_options_initial(force_window),
                        None,
                    ) == Ok::<(ShowOptionsFlags, Option<Seq<char>>, int), ParseErrorView<E>>(
                        (flags, opt_view(target), i as int),
                    )
                },
        decreases args.len() - i + (if done { 0int } else { 1int }),
    {
        let t = args[i].as_str();
        proof {
            assert(a[i as int] == t@);
        }
        let single = token_flag(t);
        if single == Some('-') {
            i = i + 1;
            done = true;
        } else if single == Some('t') {
            if i + 1 >= args.len() {
                return Err(
                    ParseError::Command(
                        CommandError::MissingArgument { what: string_from("-t target") },
                    ),
                );
            }
            proof {
                assert(a[i + 1] == args@[i + 1]@);
            }
            let checked = check(&args[i + 1]);
            if let Err(e) = checked {
                return Err(ParseError::Target(e));
            }
            target = Some(args[i + 1].clone());
            i = i + 2;
        } else if single.is_some() && (single == Some('g') || single == Some('s') || single == Some('w')
            || single == Some('p') || single == Some('v') || single == Some('A') || single == Some('q')) {
            let c = single.unwrap();
            match show_char_exec(flags, c, force_window) {
                Ok(next) => {
                    flags = next;
                    i = i + 1;
                },
                Err(e) => {
                    return Err(ParseError::Command(e));
                },
            }
        } else if is_show_options_flag_cluster(t) {
            let v = chars_of(t);
            let ghost cluster = t@.subrange(1, t@.len() as int);
            let ghost start = flags;
            let mut k: usize = 1;
            proof {
                assert(v@.subrange(1, v@.len() as int) =~= cluster);
                assert forall|chk: spec_fn(Seq<char>) -> Result<(), E>|
                    checks_targets(*check, chk) implies show_options_flag_loop(
                    a,
                    i as int,
                    force_window,
                    chk,
                    start,
                    opt_view(target),
                ) == match show_cluster(start, cluster, force_window) {
                    Ok(n) => show_options_flag_loop(a, i + 1, force_window, chk, n, opt_view(target)),
                    Err(e) => Err(refused(e)),
                } by {}
            }
            while k < v.len()
                invariant
                    1 <= k <= v@.len(),
                    v@ == t@,
                    a == string_views(args@),
                    forall|s: &String| check.requires((s,)),
                    forall|chk: spec_fn(Seq<char>) -> Result<(), E>|
                        checks_targets(*check, chk) ==> show_options_flag_loop(
                            a,
                            0,
                            force_window,
                            chk,
                            show_options_initial(force_window),
                            None,
                        ) == match show_cluster(start, cluster, force_window) {
                            Ok(n) => show_options_flag_loop(
                                a,
                                i + 1,
                                force_window,
                                chk,
                                n,
                                opt_view(target),
                            ),
                            Err(e) => Err(refused(e)),
                        },
                    cluster == t@.subrange(1, t@.len() as int),
                    show_cluster(start, cluster, force_window) == show_cluster(
                        flags,
                        v@.subrange(k as int, v@.len() as int),
                        force_window,
                    ),
                decreases v.len() - k,
            {
                proof {
                    assert(v@.subrange(k as int, v@.len() as int).drop_first() =~= v@.subrange(
                        k + 1,
                        v@.len() as int,
                    ));
                }
                proof {
                    assert(v@.subrange(k as int, v@.len() as int)[0] == v@[k as int]);
                }
                match show_char_exec(flags, v[k], force_window) {
                    Ok(next) => {
                        flags = next;
                    },
                    Err(e) => {
                        proof {
                            assert(show_cluster(flags, v@.subrange(k as int, v@.len() as int), force_window)
                                == Err::<ShowOptionsFlags, CommandErrorView>(error_view(e)));
                        }
                        return Err(ParseError::Command(e));
                    },
                }
                k = k + 1;
            }
            proof {
                assert(v@.subrange(k as int, v@.len() as int) =~= Seq::<char>::empty());
            }
            i = i + 1;
        } else {
            done = true;
        }
    }
    let mut name: Option<String> = None;
    let mut next = i;
    if next < args.len() {
        name = Some(args[next].clone());
        next = next + 1;
    }
    if next < args.len() {
        let command = if force_window {
            string_from("show-window-options")
        } else {
            string_from("show-options")
        };
        return Err(
            ParseError::Command(
                CommandError::UnexpectedArgument { command, argument: args[next].clone() },
            ),
        );
    }
    Ok(ShowOptionsTokens { flags, target, name })
}


// ---------------------------------------------------------------------------
// Laws of the set-option flags
// ---------------------------------------------------------------------------

/// The letters of the `set-option` flags that set one mark and no scope:
/// `g` global, `a` append, `o` only if unset, `u` unset.
pub open spec fn set_option_mark_letter(c: char) -> bool {
    c == 'g' || c == 'a' || c == 'o' || c == 'u'
}

/// The flags with what the letter `c` names set: `g` global, `s` server,
/// `w` window, `p` pane, `a` append, `o` only if unset, `u` unset, and `U`
/// unset with the pane overrides (a window scope).
pub open spec fn mark_on(flags: SetOptionFlags, c: char) -> SetOptionFlags {
    SetOptionFlags {
        global: flags.global || c == 'g',
        server: flags.server || c == 's',
        window: flags.window || c == 'w' || c == 'U',
        pane: flags.pane || c == 'p',
        append: flags.append || c == 'a',
        only_if_unset: flags.only_if_unset || c == 'o',
        unset: flags.unset || c == 'u' || c == 'U',
        unset_pane_overrides: flags.unset_pane_overrides || c == 'U',
    }
}

pub open spec fn flag_loop_mark_on<E>(
    r: Result<(SetOptionFlags, Option<Seq<char>>, int), ParseErrorView<E>>,
    c: char,
) -> Result<(SetOptionFlags, Option<Seq<char>>, int), ParseErrorView<E>> {
    match r {
        Ok((f, t, j)) => Ok((mark_on(f, c), t, j + 1)),
        Err(e) => Err(e),
    }
}

/// The outcome `r` with the mark that `c` names set, if it is a success.
pub open spec fn tokens_mark_on<E>(
    r: Result<SetOptionTokensView, ParseErrorView<E>>,
    c: char,
) -> Result<SetOptionTokensView, ParseErrorView<E>> {
    match r {
        Ok(t) => Ok(SetOptionTokensView { flags: mark_on(t.flags, c), ..t }),
        Err(e) => Err(e),
    }
}

proof fn lemma_cluster_mark_on(flags: SetOptionFlags, cluster: Seq<char>, c: char)
    ensures
        apply_set_option_cluster(mark_on(flags, c), cluster).0 == mark_on(
            apply_set_option_cluster(flags, cluster).0,
            c,
        ),
    decreases cluster.len(),
{
    if cluster.len() > 0 {
        match apply_set_option_flag(flags, cluster[0]) {
            Some(next) => {
                assert(apply_set_option_flag(mark_on(flags, c), cluster[0]) == Some(
                    mark_on(next, c),
                ));
                lemma_cluster_mark_on(next, cluster.drop_first(), c);
            },
            None => {},
        }
    }
}

proof fn lemma_flag_loop_end_in_range<E>(
    args: Seq<Seq<char>>,
    i: int,
    force_window: bool,
    chk: spec_fn(Seq<char>) -> Result<(), E>,
    flags: SetOptionFlags,
    target: Option<Seq<char>>,
)
    requires
        0 <= i <= args.len(),
    ensures
        set_option_flag_loop(args, i, force_window, chk, flags, target) matches Ok((_f, _t, j))
            ==> i <= j <= args.len(),
    decreases args.len() - i,
{
    if i < args.len() {
        let t = args[i];
        if single_flag(t) == Some('-') {
        } else if single_flag(t) == Some('t') {
            if i + 1 < args.len() {
                lemma_flag_loop_end_in_range(args, i + 2, force_window, chk, flags, Some(args[i + 1]));
            }
        } else if single_flag(t) is Some && set_option_single(flags, single_flag(t)->0, force_window)
            is Some {
            lemma_flag_loop_end_in_range(
                args,
                i + 1,
                force_window,
                chk,
                set_option_single(flags, single_flag(t)->0, force_window)->0,
                target,
            );
        } else if set_option_flag_cluster(t, force_window) {
            lemma_flag_loop_end_in_range(
                args,
                i + 1,
                force_window,
                chk,
                apply_set_option_cluster(flags, t.subrange(1, t.len() as int)).0,
                target,
            );
        }
    }
}

/// Reading `x` then `rest` from token `i + 1` with the mark `c` set agrees
/// with reading `rest` from token `i`, the mark set at the end.
#[verifier::spinoff_prover]
#[verifier::rlimit(60)]
proof fn lemma_flag_loop_mark_on<E>(
    x: Seq<char>,
    rest: Seq<Seq<char>>,
    i: int,
    force_window: bool,
    chk: spec_fn(Seq<char>) -> Result<(), E>,
    flags: SetOptionFlags,
    target: Option<Seq<char>>,
    c: char,
)
    requires
        0 <= i <= rest.len(),
    ensures
        set_option_flag_loop(seq![x] + rest, i + 1, force_window, chk, mark_on(flags, c), target)
            == flag_loop_mark_on(set_option_flag_loop(rest, i, force_window, chk, flags, target), c),
    decreases rest.len() - i,
{
    let args = seq![x] + rest;
    if i < rest.len() {
        assert(args[i + 1] == rest[i]);
        if i + 1 < rest.len() {
            assert(args[i + 2] == rest[i + 1]);
        }
        let t = rest[i];
        if single_flag(t) == Some('-') {
        } else if single_flag(t) == Some('t') {
            if i + 1 < rest.len() && chk(rest[i + 1]) is Ok {
                lemma_flag_loop_mark_on(x, rest, i + 2, force_window, chk, flags, Some(rest[i + 1]), c);
            }
        } else if single_flag(t) is Some && set_option_single(flags, single_flag(t)->0, force_window)
            is Some {
            let next = set_option_single(flags, single_flag(t)->0, force_window)->0;
            assert(set_option_single(mark_on(flags, c), single_flag(t)->0, force_window) == Some(
                mark_on(next, c),
            ));
            lemma_flag_loop_mark_on(x, rest, i + 1, force_window, chk, next, target, c);
        } else if set_option_flag_cluster(t, force_window) {
            if single_flag(t) is Some {
                assert(set_option_single(mark_on(flags, c), single_flag(t)->0, force_window) is None);
            }
            let cl = t.subrange(1, t.len() as int);
            lemma_cluster_mark_on(flags, cl, c);
            lemma_flag_loop_mark_on(
                x,
                rest,
                i + 1,
                force_window,
                chk,
                apply_set_option_cluster(flags, cl).0,
                target,
                c,
            );
        } else {
            if single_flag(t) is Some {
                assert(set_option_single(mark_on(flags, c), single_flag(t)->0, force_window) is None);
            }
        }
    }
}

/// A token `-g`, `-a`, `-o` or `-u` put in front of any `set-option` (or
/// `set-window-option`) command line sets that flag (global, append, only if
/// unset, unset) and changes nothing else: the line reads exactly as without
/// it, with that one flag set, and fails where it fails. So `set-option -a
/// status-left x` appends.
pub proof fn law_set_option_flag_token_sets_its_flag<E>(
    c: char,
    rest: Seq<Seq<char>>,
    force_window: bool,
    chk: spec_fn(Seq<char>) -> Result<(), E>,
)
    requires
        set_option_mark_letter(c),
    ensures
        set_option_tokens_spec(seq![seq!['-', c]] + rest, force_window, chk) == tokens_mark_on(
            set_option_tokens_spec(rest, force_window, chk),
            c,
        ),
{
    let args = seq![seq!['-', c]] + rest;
    assert(args[0] == seq!['-', c]);
    assert(single_flag(args[0]) == Some(c));
    let init = set_option_initial(force_window);
    assert(set_option_single(init, c, force_window) == Some(mark_on(init, c)));
    lemma_flag_loop_mark_on(seq!['-', c], rest, 0, force_window, chk, init, None, c);
    lemma_flag_loop_end_in_range(rest, 0, force_window, chk, init, None);
    match set_option_flag_loop(rest, 0, force_window, chk, init, None) {
        Ok((f, t, j)) => {
            assert(scope_total(mark_on(f, c)) == scope_total(f));
            if j < rest.len() {
                assert(args[j + 1] == rest[j]);
            }
            if j + 1 < rest.len() {
                assert(args[j + 2] == rest[j + 1]);
            }
            if j + 2 < rest.len() {
                assert(args[j + 3] == rest[j + 2]);
            }
        },
        Err(_) => {},
    }
}

/// A scope token `-s`, `-w` or `-p` (or `-U`, which asks for the window
/// scope) put in front of a `set-option` command line sets that scope and
/// changes nothing else: where the line reads, it reads as without the token
/// with that scope set; and where the line without it reads and the scope
/// set still leaves at most one of `-s`, `-w` and `-p`, the line with it
/// reads so. (`-p` and `-U` are not flags of `set-window-option`.)
pub proof fn law_set_option_scope_token_sets_its_scope<E>(
    c: char,
    rest: Seq<Seq<char>>,
    force_window: bool,
    chk: spec_fn(Seq<char>) -> Result<(), E>,
)
    requires
        c == 's' || c == 'w' || ((c == 'p' || c == 'U') && !force_window),
    ensures
        set_option_tokens_spec(seq![seq!['-', c]] + rest, force_window, chk) is Ok ==> (
        set_option_tokens_spec(rest, force_window, chk) is Ok && set_option_tokens_spec(
            seq![seq!['-', c]] + rest,
            force_window,
            chk,
        ) == tokens_mark_on(set_option_tokens_spec(rest, force_window, chk), c)),
        set_option_tokens_spec(rest, force_window, chk) is Ok && scope_total(
            mark_on(set_option_tokens_spec(rest, force_window, chk)->Ok_0.flags, c),
        ) <= 1 ==> set_option_tokens_spec(seq![seq!['-', c]] + rest, force_window, chk)
            == tokens_mark_on(set_option_tokens_spec(rest, force_window, chk), c),
{
    let args = seq![seq!['-', c]] + rest;
    assert(args[0] == seq!['-', c]);
    assert(single_flag(args[0]) == Some(c));
    let init = set_option_initial(force_window);
    assert(set_option_single(init, c, force_window) == Some(mark_on(init, c)));
    lemma_flag_loop_mark_on(seq!['-', c], rest, 0, force_window, chk, init, None, c);
    lemma_flag_loop_end_in_range(rest, 0, force_window, chk, init, None);
    match set_option_flag_loop(rest, 0, force_window, chk, init, None) {
        Ok((f, t, j)) => {
            assert(scope_total(f) <= scope_total(mark_on(f, c)));
            if j < rest.len() {
                assert(args[j + 1] == rest[j]);
            }
            if j + 1 < rest.len() {
                assert(args[j + 2] == rest[j + 1]);
            }
            if j + 2 < rest.len() {
                assert(args[j + 3] == rest[j + 2]);
            }
        },
        Err(_) => {},
    }
}

} // verus!
