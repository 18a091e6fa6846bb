use vstd::prelude::*;

use crate::config_parse::{
    checks_targets, parse_error_view, refused, ParseError, ParseErrorView, error_view, opt_view, single_flag, starts_with_dash, string_from, token_flag,
    token_starts_with_dash, CommandError, CommandErrorView,
};
use crate::pane_parse::{missing_value, nonempty_list, refusal};
use crate::source_files::string_views;
use crate::text::{chars_of, str_eq};

verus! {

/// One argument of a queued command: a word, or a command block
/// (`{ ... }`).
pub enum QueueArgument {
    Word(String),
    Block,
}

/// The abstract value of a queued argument.
pub enum QueueArgumentView {
    Word(Seq<char>),
    Block,
}

pub open spec fn queue_argument_view(a: QueueArgument) -> QueueArgumentView {
    match a {
        QueueArgument::Word(w) => QueueArgumentView::Word(w@),
        QueueArgument::Block => QueueArgumentView::Block,
    }
}

pub open spec fn queue_views(args: Seq<QueueArgument>) -> Seq<QueueArgumentView> {
    args.map_values(|a: QueueArgument| queue_argument_view(a))
}

/// The word of an argument (nothing for a block).
pub open spec fn word_of(a: QueueArgumentView) -> Seq<char> {
    match a {
        QueueArgumentView::Word(w) => w,
        QueueArgumentView::Block => Seq::empty(),
    }
}

/// The argument at `i` is a word that starts with `-`.
pub open spec fn dash_word_at(args: Seq<QueueArgumentView>, i: int) -> bool {
    0 <= i < args.len() && args[i] is Word && starts_with_dash(word_of(args[i]))
}

/// Some argument from `i` on is a block.
pub open spec fn block_from(args: Seq<QueueArgumentView>, i: int) -> bool {
    exists|k: int| i <= k < args.len() && #[trigger] args[k] is Block
}

/// The words from `i` on.
pub open spec fn words_from(args: Seq<QueueArgumentView>, i: int) -> Seq<Seq<char>> {
    args.subrange(i, args.len() as int).map_values(|a: QueueArgumentView| word_of(a))
}

/// The flags of a `new-window` command line read so far. The target is kept
/// as written; the environment entries in the order given.
pub struct NewWindowState {
    pub target: Option<Seq<char>>,
    pub name: Option<Seq<char>>,
    pub detached: bool,
    pub after: bool,
    pub before: bool,
    pub start_directory: Option<Seq<char>>,
    pub environment: Seq<Seq<char>>,
}

pub open spec fn new_window_initial() -> NewWindowState {
    NewWindowState {
        target: None,
        name: None,
        detached: false,
        after: false,
        before: false,
        start_directory: None,
        environment: Seq::empty(),
    }
}

/// What a missing value of the flag `-c`, `-e`, `-t` or `-n` is called.
pub open spec fn new_window_value_name(c: char) -> Seq<char> {
    if c == 'c' {
        "-c start-directory"@
    } else if c == 'e' {
        "-e name=value"@
    } else if c == 't' {
        "-t target"@
    } else {
        "-n name"@
    }
}

/// The state after the value `v` of the flag `-c`, `-e`, `-t` or `-n`.
pub open spec fn new_window_with(st: NewWindowState, c: char, v: Seq<char>) -> NewWindowState {
    if c == 'c' {
        NewWindowState { start_directory: Some(v), ..st }
    } else if c == 'e' {
        NewWindowState { environment: st.environment.push(v), ..st }
    } else if c == 't' {
        NewWindowState { target: Some(v), ..st }
    } else {
        NewWindowState { name: Some(v), ..st }
    }
}

/// The flags of a `new-window` command line from argument `i` on: the state
/// they leave, where the command begins, and whether `--` ended them. A
/// block ends them; a block given as a flag's value is refused; a target
/// word that `chk` refuses stops them with its error.
pub open spec fn new_window_loop<E>(
    args: Seq<QueueArgumentView>,
    i: int,
    chk: spec_fn(Seq<char>) -> Result<(), E>,
    st: NewWindowState,
) -> Result<(NewWindowState, int, bool), ParseErrorView<E>>
    decreases args.len() - i,
{
    if i < 0 || i >= args.len() || args[i] is Block {
        Ok((st, i, false))
    } else {
        let f = single_flag(word_of(args[i]));
        if f == Some('-') {
            Ok((st, i + 1, true))
        } else if f == Some('a') {
            new_window_loop(args, i + 1, chk, NewWindowState { after: true, ..st })
        } else if f == Some('b') {
            new_window_loop(args, i + 1, chk, NewWindowState { before: true, ..st })
        } else if f == Some('d') {
            new_window_loop(args, i + 1, chk, NewWindowState { detached: true, ..st })
        } else if f == Some('c') || f == Some('e') || f == Some('t') || f == Some('n') {
            let c = f->0;
            if i + 1 >= args.len() {
                Err(refused(CommandErrorView::MissingArgument(new_window_value_name(c))))
            } else if args[i + 1] is Block {
                Err(refused(CommandErrorView::BlockArgument(new_window_value_name(c))))
            } else {
                let v = word_of(args[i + 1]);
                if c == 't' && chk(v) is Err {
                    Err(ParseErrorView::Target(chk(v)->Err_0))
                } else {
                    new_window_loop(args, i + 2, chk, new_window_with(st, c, v))
                }
            }
        } else {
            Ok((st, i, false))
        }
    }
}

/// What a `new-window` command line says. The target is returned as written,
/// for the caller to look up.
pub struct NewWindowTokens {
    pub target: Option<String>,
    pub name: Option<String>,
    pub detached: bool,
    pub after: bool,
    pub before: bool,
    pub start_directory: Option<String>,
    pub environment: Option<Vec<String>>,
    pub command: Option<Vec<String>>,
}

pub struct NewWindowTokensView {
    pub target: Option<Seq<char>>,
    pub name: Option<Seq<char>>,
    pub detached: bool,
    pub after: bool,
    pub before: bool,
    pub start_directory: Option<Seq<char>>,
    pub environment: Option<Seq<Seq<char>>>,
    pub command: Option<Seq<Seq<char>>>,
}

pub open spec fn opt_list_view(o: Option<Vec<String>>) -> Option<Seq<Seq<char>>> {
    match o {
        Some(v) => Some(string_views(v@)),
        None => None,
    }
}

impl NewWindowTokens {
    pub open spec fn view(&self) -> NewWindowTokensView {
        NewWindowTokensView {
            target: opt_view(self.target),
            name: opt_view(self.name),
            detached: self.detached,
            after: self.after,
            before: self.before,
            start_directory: opt_view(self.start_directory),
            environment: opt_list_view(self.environment),
            command: opt_list_view(self.command),
        }
    }
}

/// A `new-window` command line read. Unless `--` ended the flags, a word
/// that starts with `-` where the flags stop is refused; what follows the
/// flags is the command, which must be made of words; an empty environment
/// is none. `chk` is the check of a target word.
pub open spec fn new_window_tokens_spec<E>(
    args: Seq<QueueArgumentView>,
    chk: spec_fn(Seq<char>) -> Result<(), E>,
) -> Result<NewWindowTokensView, ParseErrorView<E>> {
    match new_window_loop(args, 0, chk, new_window_initial()) {
        Err(e) => Err(e),
        Ok((st, i, command_only)) => if !command_only && dash_word_at(args, i) {
            Err(refused(CommandErrorView::UnexpectedArgument("new-window"@, word_of(args[i]))))
        } else if block_from(args, i) {
            Err(refused(CommandErrorView::Refused("new-window command must be a string argument"@)))
        } else {
            Ok(
                NewWindowTokensView {
                    target: st.target,
                    name: st.name,
                    detached: st.detached,
                    after: st.after,
                    before: st.before,
                    start_directory: st.start_directory,
                    environment: nonempty_list(st.environment),
                    command: if i < args.len() {
                        Some(words_from(args, i))
                    } else {
                        None
                    },
                },
            )
        },
    }
}

fn new_window_name(c: char) -> (s: String)
    requires
        c == 'c' || c == 'e' || c == 't' || c == 'n',
    ensures
        s@ == new_window_value_name(c),
{
    if c == 'c' {
        string_from("-c start-directory")
    } else if c == 'e' {
        string_from("-e name=value")
    } else if c == 't' {
        string_from("-t target")
    } else {
        string_from("-n name")
    }
}

/// The words of `args` from `start` on, or the position of the first block
/// among them.
pub fn words_or_block(args: &[QueueArgument], start: usize) -> (r: Result<Vec<String>, usize>)
    requires
        start <= args@.len(),
    ensures
        match r {
            Ok(w) => !block_from(queue_views(args@), start as int) && string_views(w@) == words_from(
                queue_views(args@),
                start as int,
            ),
            Err(k) => block_from(queue_views(args@), start as int),
        },
{
    let ghost a = queue_views(args@);
    let mut out: Vec<String> = Vec::new();
    let mut k = start;
    while k < args.len()
        invariant
            start <= k <= args@.len(),
            a == queue_views(args@),
            !block_from(a.subrange(0, k as int), start as int),
            string_views(out@) =~= a.subrange(start as int, k as int).map_values(
                |x: QueueArgumentView| word_of(x),
            ),
        decreases args.len() - k,
    {
        proof {
            assert(a[k as int] == queue_argument_view(args@[k as int]));
        }
        match &args[k] {
            QueueArgument::Word(w) => {
                let ghost before = out@;
                out.push(w.clone());
                proof {
                    assert(string_views(out@) =~= string_views(before).push(w@));
                    assert(a.subrange(start as int, k + 1) =~= a.subrange(start as int, k as int).push(
                        a[k as int],
                    ));
                    assert(a.subrange(start as int, k + 1).map_values(|x: QueueArgumentView| word_of(x))
                        =~= a.subrange(start as int, k as int).map_values(
                        |x: QueueArgumentView| word_of(x),
                    ).push(word_of(a[k as int])));
                    assert forall|j: int| start <= j < a.subrange(0, k + 1).len() implies !(#[trigger] a.subrange(0, k + 1)[j] is Block) by {
                        if j < k {
                            assert(a.subrange(0, k + 1)[j] == a.subrange(0, k as int)[j]);
                        }
                    }
                }
            },
            QueueArgument::Block => {
                proof {
                    assert(a[k as int] is Block);
                }
                return Err(k);
            },
        }
        k = k + 1;
    }
    proof {
        assert(a.subrange(0, k as int) =~= a);
    }
    Ok(out)
}

/// Reads a queued `new-window` command line. `check` checks each word given
/// to `-t` where it is given.
pub fn parse_new_window_tokens<E, F: Fn(&String) -> Result<(), E>>(
    args: &[QueueArgument],
    check: &F,
) -> (r: Result<NewWindowTokens, ParseError<E>>)
    requires
        forall|s: &String| check.requires((s,)),
    ensures
        forall|chk: spec_fn(Seq<char>) -> Result<(), E>|
            checks_targets(*check, chk) ==> match r {
                Ok(t) => new_window_tokens_spec(queue_views(args@), chk) == Ok::<
                    NewWindowTokensView,
                    ParseErrorView<E>,
                >(t.view()),
                Err(e) => new_window_tokens_spec(queue_views(args@), chk) == Err::<
                    NewWindowTokensView,
                    ParseErrorView<E>,
                >(parse_error_view(e)),
            },
{
    let ghost a = queue_views(args@);
    let mut target: Option<String> = None;
    let mut name: Option<String> = None;
    let mut detached = false;
    let mut after = false;
    let mut before = false;
    let mut start_directory: Option<String> = None;
    let mut environment: Vec<String> = Vec::new();
    let mut command_only = false;
    let mut i: usize = 0;
    let mut done = false;
    proof {
        assert(string_views(environment@) =~= Seq::<Seq<char>>::empty());
    }
    while i < args.len() && !done
        invariant
            i <= args@.len(),
            a == queue_views(args@),
            forall|s: &String| check.requires((s,)),
            !done ==> !command_only,
            forall|chk: spec_fn(Seq<char>) -> Result<(), E>|
                checks_targets(*check, chk) ==> {
                    &&& !done ==> new_window_loop(a, 0, chk, new_window_initial())
                        == new_window_loop(
                        a,
                        i as int,
                        chk,
                        NewWindowState {
                            target: opt_view(target),
                            name: opt_view(name),
                            detached,
                            after,
                            before,
                            start_directory: opt_view(start_directory),
                            environment: string_views(environment@),
                        },
                    )
                    &&& done ==> new_window_loop(a, 0, chk, new_window_initial()) == Ok::<
                        (NewWindowState, int, bool),
                        ParseErrorView<E>,
                    >(
                        (
                            NewWindowState {
                                target: opt_view(target),
                                name: opt_view(name),
                                detached,
                                after,
                                before,
                                start_directory: opt_view(start_directory),
                                environment: string_views(environment@),
                            },
                            i as int,
                            command_only,
                        ),
                    )
                },
        decreases args.len() - i + (if done { 0int } else { 1int }),
    {
        proof {
            assert(a[i as int] == queue_argument_view(args@[i as int]));
        }
        let f = match &args[i] {
            QueueArgument::Word(w) => token_flag(w.as_str()),
            QueueArgument::Block => None,
        };
        let is_block = match &args[i] {
            QueueArgument::Word(_) => false,
            QueueArgument::Block => true,
        };
        if is_block {
            done = true;
        } else if f == Some('-') {
            i = i + 1;
            command_only = true;
            done = true;
        } else if f == Some('a') {
            after = true;
            i = i + 1;
        } else if f == Some('b') {
            before = true;
            i = i + 1;
        } else if f == Some('d') {
            detached = true;
            i = i + 1;
        } else if f == Some('c') || f == Some('e') || f == Some('t') || f == Some('n') {
            let c = f.unwrap();
            if i + 1 >= args.len() {
                return Err(
                    ParseError::Command(CommandError::MissingArgument { what: new_window_name(c) }),
                );
            }
            proof {
                assert(a[i + 1] == queue_argument_view(args@[i + 1]));
            }
            let v = match &args[i + 1] {
                QueueArgument::Word(w) => w.clone(),
                QueueArgument::Block => {
                    return Err(
                        ParseError::Command(
                            CommandError::BlockArgument { what: new_window_name(c) },
                        ),
                    );
                },
            };
            if c == 't' {
                let checked = check(&v);
                if let Err(e) = checked {
                    return Err(ParseError::Target(e));
                }
            }
            if c == 'c' {
                start_directory = Some(v);
            } else if c == 'e' {
                let ghost old_env = environment@;
                let ghost vv = v@;
                environment.push(v);
                proof {
                    assert(string_views(environment@) =~= string_views(old_env).push(vv));
                }
            } else if c == 't' {
                target = Some(v);
            } else {
                name = Some(v);
            }
            i = i + 2;
        } else {
            done = true;
        }
    }
    if !command_only && i < args.len() {
        proof {
            assert(a[i as int] == queue_argument_view(args@[i as int]));
        }
        if let QueueArgument::Word(w) = &args[i] {
            if token_starts_with_dash(w.as_str()) {
                return Err(
                    ParseError::Command(
                        CommandError::UnexpectedArgument {
                            command: string_from("new-window"),
                            argument: w.clone(),
                        },
                    ),
                );
            }
        }
    }
    let command = if i < args.len() {
        match words_or_block(args, i) {
            Ok(w) => Some(w),
            Err(_) => {
                return Err(
                    ParseError::Command(
                        CommandError::Refused(
                            string_from("new-window command must be a string argument"),
                        ),
                    ),
                );
            },
        }
    } else {
        proof {
            assert(!block_from(a, i as int));
        }
        None
    };
    let environment = if environment.len() > 0 {
        Some(environment)
    } else {
        None
    };
    Ok(
        NewWindowTokens {
            target,
            name,
            detached,
            after,
            before,
            start_directory,
            environment,
            command,
        },
    )
}

/// The window index at which a new window is placed next to the window at
/// `index`: after it with `-a`, else at it (with `-b` the window there moves
/// on). The index after the last one refuses `-a`.
pub fn new_window_placement(after: bool, before: bool, index: u32) -> (r: Result<u32, CommandError>)
    ensures
        match r {
            Ok(v) => !(after && index == u32::MAX) && v == (if after {
                index + 1
            } else {
                index as int
            }),
            Err(e) => after && index == u32::MAX && error_view(e) == CommandErrorView::Refused(
                "window index space exhausted for new-window"@,
            ),
        },
{
    if after {
        match index.checked_add(1) {
            Some(v) => Ok(v),
            None => Err(
                CommandError::Refused(string_from("window index space exhausted for new-window")),
            ),
        }
    } else {
        Ok(index)
    }
}


// ---------------------------------------------------------------------------
// source-file
// ---------------------------------------------------------------------------

/// The flags of a queued `source-file` command line read so far.
pub struct SourceFileState {
    pub quiet: bool,
    pub parse_only: bool,
    pub verbose: bool,
    pub expand_paths: bool,
    pub target: Option<Seq<char>>,
}

pub open spec fn source_file_initial() -> SourceFileState {
    SourceFileState {
        quiet: false,
        parse_only: false,
        verbose: false,
        expand_paths: false,
        target: None,
    }
}

/// The flag characters of one cluster such as `-qn`, applied in order; `t`
/// must come last (its target is the next word), which the second result
/// reports.
pub open spec fn source_file_cluster(chars: Seq<char>, st: SourceFileState) -> Result<
    (SourceFileState, bool),
    CommandErrorView,
>
    decreases chars.len(),
{
    if chars.len() == 0 {
        Ok((st, false))
    } else {
        let c = chars[0];
        if c == 'F' {
            source_file_cluster(chars.drop_first(), SourceFileState { expand_paths: true, ..st })
        } else if c == 'n' {
            source_file_cluster(chars.drop_first(), SourceFileState { parse_only: true, ..st })
        } else if c == 'q' {
            source_file_cluster(chars.drop_first(), SourceFileState { quiet: true, ..st })
        } else if c == 'v' {
            source_file_cluster(chars.drop_first(), SourceFileState { verbose: true, ..st })
        } else if c == 't' {
            if chars.len() > 1 {
                Err(
                    CommandErrorView::Refused(
                        "source-file -t must be followed by a target argument"@,
                    ),
                )
            } else {
                Ok((st, true))
            }
        } else {
            Err(CommandErrorView::UnsupportedFlag("source-file"@, seq!['-', c]))
        }
    }
}

/// The flag words of a queued `source-file` command line from token `i` on,
/// and where the paths begin: after `--`, or at `-` or the first word that
/// does not start with `-`.
pub open spec fn source_file_loop<E>(
    args: Seq<QueueArgumentView>,
    i: int,
    chk: spec_fn(Seq<char>) -> Result<(), E>,
    st: SourceFileState,
) -> Result<(SourceFileState, int), ParseErrorView<E>>
    decreases args.len() - i,
{
    if i < 0 || i >= args.len() || args[i] is Block {
        Ok((st, i))
    } else {
        let t = word_of(args[i]);
        if t == seq!['-', '-'] {
            Ok((st, i + 1))
        } else if t == seq!['-'] || !starts_with_dash(t) {
            Ok((st, i))
        } else {
            match source_file_cluster(t.drop_first(), st) {
                Err(e) => Err(refused(e)),
                Ok((next, false)) => source_file_loop(args, i + 1, chk, next),
                Ok((next, true)) => if i + 1 >= args.len() {
                    Err(refused(CommandErrorView::MissingArgument("-t target"@)))
                } else if args[i + 1] is Block {
                    Err(refused(CommandErrorView::BlockArgument("-t target"@)))
                } else if chk(word_of(args[i + 1])) is Err {
                    Err(ParseErrorView::Target(chk(word_of(args[i + 1]))->Err_0))
                } else {
                    source_file_loop(
                        args,
                        i + 2,
                        chk,
                        SourceFileState { target: Some(word_of(args[i + 1])), ..next },
                    )
                },
            }
        }
    }
}

/// What a queued `source-file` command line says: the paths (at least one),
/// the flags, and the raw `-t` target.
pub struct SourceFileTokens {
    pub paths: Vec<String>,
    pub quiet: bool,
    pub parse_only: bool,
    pub verbose: bool,
    pub expand_paths: bool,
    pub target: Option<String>,
}

pub struct SourceFileTokensView {
    pub paths: Seq<Seq<char>>,
    pub quiet: bool,
    pub parse_only: bool,
    pub verbose: bool,
    pub expand_paths: bool,
    pub target: Option<Seq<char>>,
}

impl SourceFileTokens {
    pub open spec fn view(&self) -> SourceFileTokensView {
        SourceFileTokensView {
            paths: string_views(self.paths@),
            quiet: self.quiet,
            parse_only: self.parse_only,
            verbose: self.verbose,
            expand_paths: self.expand_paths,
            target: opt_view(self.target),
        }
    }
}

/// A queued `source-file` command line read: the paths after the flags
/// must be words, and at least one is needed. `chk` is the check of a target
/// word.
pub open spec fn source_file_tokens_spec<E>(
    args: Seq<QueueArgumentView>,
    chk: spec_fn(Seq<char>) -> Result<(), E>,
) -> Result<SourceFileTokensView, ParseErrorView<E>> {
    match source_file_loop(args, 0, chk, source_file_initial()) {
        Err(e) => Err(e),
        Ok((st, i)) => if block_from(args, i) {
            Err(refused(CommandErrorView::Refused("source-file path must be a string argument"@)))
        } else if i >= args.len() {
            Err(refused(CommandErrorView::MissingArgument("path"@)))
        } else {
            Ok(
                SourceFileTokensView {
                    paths: words_from(args, i),
                    quiet: st.quiet,
                    parse_only: st.parse_only,
                    verbose: st.verbose,
                    expand_paths: st.expand_paths,
                    target: st.target,
                },
            )
        },
    }
}

fn unsupported_char(c: char) -> (e: CommandError)
    ensures
        error_view(e) == CommandErrorView::UnsupportedFlag("source-file"@, seq!['-', c]),
{
    let mut flag = String::new();
    crate::text::string_push(&mut flag, '-');
    crate::text::string_push(&mut flag, c);
    proof {
        assert(flag@ =~= seq!['-', c]);
    }
    CommandError::UnsupportedFlag { command: string_from("source-file"), flag }
}

/// Applies the flag characters of the cluster `token` (after its `-`).
fn apply_source_file_cluster(token: &str, st: (bool, bool, bool, bool)) -> (r: Result<
    ((bool, bool, bool, bool), bool),
    CommandError,
>)
    requires
        token@.len() > 0,
    ensures
        ({
            let s0 = SourceFileState {
                quiet: st.0,
                parse_only: st.1,
                verbose: st.2,
                expand_paths: st.3,
                target: None,
            };
            match r {
                Ok((f, t)) => source_file_cluster(token@.drop_first(), s0) == Ok::<
                    (SourceFileState, bool),
                    CommandErrorView,
                >(
                    (
                        SourceFileState {
                            quiet: f.0,
                            parse_only: f.1,
                            verbose: f.2,
                            expand_paths: f.3,
                            target: None,
                        },
                        t,
                    ),
                ),
                Err(e) => source_file_cluster(token@.drop_first(), s0) == Err::<
                    (SourceFileState, bool),
                    CommandErrorView,
                >(error_view(e)),
            }
        }),
{
    let chars = chars_of(token);
    let ghost s0 = SourceFileState {
        quiet: st.0,
        parse_only: st.1,
        verbose: st.2,
        expand_paths: st.3,
        target: None,
    };
    let (mut quiet, mut parse_only, mut verbose, mut expand_paths) = st;
    let mut k: usize = 1;
    proof {
        assert(chars@.subrange(1, chars@.len() as int) =~= token@.drop_first());
    }
    while k < chars.len()
        invariant
            1 <= k <= chars@.len(),
            chars@ == token@,
            s0 == (SourceFileState {
                quiet: st.0,
                parse_only: st.1,
                verbose: st.2,
                expand_paths: st.3,
                target: None,
            }),
            source_file_cluster(token@.drop_first(), s0) == source_file_cluster(
                chars@.subrange(k as int, chars@.len() as int),
                SourceFileState { quiet, parse_only, verbose, expand_paths, target: None },
            ),
        decreases chars.len() - k,
    {
        let c = chars[k];
        let ghost rest = chars@.subrange(k as int, chars@.len() as int);
        proof {
            assert(rest[0] == c);
            assert(rest.drop_first() =~= chars@.subrange(k + 1, chars@.len() as int));
        }
        if c == 'F' {
            expand_paths = true;
        } else if c == 'n' {
            parse_only = true;
        } else if c == 'q' {
            quiet = true;
        } else if c == 'v' {
            verbose = true;
        } else if c == 't' {
            if k + 1 < chars.len() {
                proof {
                    assert(rest.len() > 1);
                }
                return Err(refusal("source-file -t must be followed by a target argument"));
            }
            return Ok(((quiet, parse_only, verbose, expand_paths), true));
        } else {
            proof {
                assert(c != 'F' && c != 'n' && c != 'q' && c != 'v' && c != 't');
                assert(rest.len() > 0);
            }
            return Err(unsupported_char(c));
        }
        k = k + 1;
    }
    proof {
        assert(chars@.subrange(k as int, chars@.len() as int) =~= Seq::<char>::empty());
    }
    Ok(((quiet, parse_only, verbose, expand_paths), false))
}

/// Reads a queued `source-file` command line. `check` checks the word given
/// to `-t` where it is given.
pub fn parse_source_file_tokens<E, F: Fn(&String) -> Result<(), E>>(
    args: &[QueueArgument],
    check: &F,
) -> (r: Result<SourceFileTokens, ParseError<E>>)
    requires
        forall|s: &String| check.requires((s,)),
    ensures
        forall|chk: spec_fn(Seq<char>) -> Result<(), E>|
            checks_targets(*check, chk) ==> match r {
                Ok(t) => source_file_tokens_spec(queue_views(args@), chk) == Ok::<
                    SourceFileTokensView,
                    ParseErrorView<E>,
                >(t.view()),
                Err(e) => source_file_tokens_spec(queue_views(args@), chk) == Err::<
                    SourceFileTokensView,
                    ParseErrorView<E>,
                >(parse_error_view(e)),
            },
{
    let ghost a = queue_views(args@);
    let mut flags = (false, false, false, false);
    let mut target: Option<String> = None;
    let mut i: usize = 0;
    let mut done = false;
    while i < args.len() && !done
        invariant
            i <= args@.len(),
            a == queue_views(args@),
            forall|s: &String| check.requires((s,)),
            forall|chk: spec_fn(Seq<char>) -> Result<(), E>|
                checks_targets(*check, chk) ==> {
                    &&& !done ==> source_file_loop(a, 0, chk, source_file_initial())
                        == source_file_loop(
                        a,
                        i as int,
                        chk,
                        SourceFileState {
                            quiet: flags.0,
                            parse_only: flags.1,
                            verbose: flags.2,
                            expand_paths: flags.3,
                            target: opt_view(target),
                        },
                    )
                    &&& done ==> source_file_loop(a, 0, chk, source_file_initial()) == Ok::<
                        (SourceFileState, int),
                        ParseErrorView<E>,
                    >(
                        (
                            SourceFileState {
                                quiet: flags.0,
                                parse_only: flags.1,
                                verbose: flags.2,
                                expand_paths: flags.3,
                                target: opt_view(target),
                            },
                            i as int,
                        ),
                    )
                },
        decreases args.len() - i + (if done { 0int } else { 1int }),
    {
        proof {
            assert(a[i as int] == queue_argument_view(args@[i as int]));
            reveal_strlit("--");
            reveal_strlit("-");
            assert("--"@ =~= seq!['-', '-']);
            assert("-"@ =~= seq!['-']);
        }
        let t: &str = match &args[i] {
            QueueArgument::Word(w) => w.as_str(),
            QueueArgument::Block => {
                done = true;
                ""
            },
        };
        if done {
        } else if str_eq(t, "--") {
            i = i + 1;
            done = true;
        } else if str_eq(t, "-") || !token_starts_with_dash(t) {
            done = true;
        } else {
            let ghost before = SourceFileState {
                quiet: flags.0,
                parse_only: flags.1,
                verbose: flags.2,
                expand_paths: flags.3,
                target: opt_view(target),
            };
            proof {
                lemma_cluster_keeps_target(t@.drop_first(), before);
            }
            match apply_source_file_cluster(t, flags) {
                Err(e) => {
                    return Err(ParseError::Command(e));
                },
                Ok((next, takes_target)) => {
                    flags = next;
                    if takes_target {
                        if i + 1 >= args.len() {
                            return Err(ParseError::Command(missing_value("-t target")));
                        }
                        proof {
                            assert(a[i + 1] == queue_argument_view(args@[i + 1]));
                        }
                        let v = match &args[i + 1] {
                            QueueArgument::Word(w) => w.clone(),
                            QueueArgument::Block => {
                                return Err(
                                    ParseError::Command(
                                        CommandError::BlockArgument {
                                            what: string_from("-t target"),
                                        },
                                    ),
                                );
                            },
                        };
                        let checked = check(&v);
                        if let Err(e) = checked {
                            return Err(ParseError::Target(e));
                        }
                        target = Some(v);
                        i = i + 2;
                    } else {
                        i = i + 1;
                    }
                },
            }
        }
    }
    let paths = match words_or_block(args, i) {
        Ok(p) => p,
        Err(_) => {
            return Err(
                ParseError::Command(
                    CommandError::Refused(string_from("source-file path must be a string argument")),
                ),
            );
        },
    };
    if i >= args.len() {
        return Err(ParseError::Command(missing_value("path")));
    }
    Ok(
        SourceFileTokens {
            paths,
            quiet: flags.0,
            parse_only: flags.1,
            verbose: flags.2,
            expand_paths: flags.3,
            target,
        },
    )
}

/// A cluster leaves the target alone: reading it from a state with any
/// target gives the same flags as from one with none.
proof fn lemma_cluster_keeps_target(chars: Seq<char>, st: SourceFileState)
    ensures
        match source_file_cluster(chars, st) {
            Ok((next, t)) => next.target == st.target && source_file_cluster(
                chars,
                SourceFileState { target: None, ..st },
            ) == Ok::<(SourceFileState, bool), CommandErrorView>(
                (SourceFileState { target: None, ..next }, t),
            ),
            Err(e) => source_file_cluster(chars, SourceFileState { target: None, ..st }) == Err::<
                (SourceFileState, bool),
                CommandErrorView,
            >(e),
        },
    decreases chars.len(),
{
    if chars.len() > 0 {
        let c = chars[0];
        if c == 'F' {
            lemma_cluster_keeps_target(chars.drop_first(), SourceFileState { expand_paths: true, ..st });
        } else if c == 'n' {
            lemma_cluster_keeps_target(chars.drop_first(), SourceFileState { parse_only: true, ..st });
        } else if c == 'q' {
            lemma_cluster_keeps_target(chars.drop_first(), SourceFileState { quiet: true, ..st });
        } else if c == 'v' {
            lemma_cluster_keeps_target(chars.drop_first(), SourceFileState { verbose: true, ..st });
        }
    }
}

} // verus!
