use vstd::prelude::*;

use crate::config_parse::{
    checks_targets, parse_set_option_tokens, set_option_tokens_spec, SetOptionTokensView,
};
use crate::source_files::{string_views, SourceInput};
use crate::text::{
    char_is_whitespace, chars_of, is_whitespace, join, str_eq, string_of, trim, trim_end, trim_end_len,
    trim_string,
};

verus! {

// ---------------------------------------------------------------------------
// Physical and logical lines
// ---------------------------------------------------------------------------

/// A line that ended with `\n`, without a `\r` just before the `\n`.
pub open spec fn strip_cr(line: Seq<char>) -> Seq<char> {
    if line.len() > 0 && line.last() == '\r' {
        line.drop_last()
    } else {
        line
    }
}

/// The lines split off so far, and the unterminated text after them, once
/// the characters of `s` have been read.
pub open spec fn split_state(s: Seq<char>) -> (Seq<Seq<char>>, Seq<char>)
    decreases s.len(),
{
    if s.len() == 0 {
        (Seq::empty(), Seq::empty())
    } else {
        let (done, current) = split_state(s.drop_last());
        if s.last() == '\n' {
            (done.push(strip_cr(current)), Seq::empty())
        } else {
            (done, current.push(s.last()))
        }
    }
}

/// The lines of `s` as `str::lines` yields them: split at each `\n`, a `\r`
/// before the `\n` dropped, and the last line kept only when it is not empty.
pub open spec fn physical_lines(s: Seq<char>) -> Seq<Seq<char>> {
    let (done, current) = split_state(s);
    if current.len() > 0 {
        done.push(current)
    } else {
        done
    }
}

/// How many backslashes `s` ends with.
pub open spec fn trailing_backslashes(s: Seq<char>) -> nat
    decreases s.len(),
{
    if s.len() > 0 && s.last() == '\\' {
        trailing_backslashes(s.drop_last()) + 1
    } else {
        0
    }
}

/// A line continues on the next one when it ends in an odd run of backslashes.
pub open spec fn continues(line: Seq<char>) -> bool {
    trailing_backslashes(line) % 2 == 1
}

/// `s` without its trailing backslashes (`trim_end_matches('\\')`).
pub open spec fn without_trailing_backslashes(s: Seq<char>) -> Seq<char> {
    s.subrange(0, s.len() - trailing_backslashes(s))
}

/// The logical lines completed after the first `k` physical lines, and the
/// continued text that waits for its last piece.
pub open spec fn logical_state(lines: Seq<Seq<char>>, k: int) -> (Seq<Seq<char>>, Seq<char>)
    decreases k,
{
    if k <= 0 {
        (Seq::empty(), Seq::empty())
    } else {
        let (done, current) = logical_state(lines, k - 1);
        let line = lines[k - 1];
        let trimmed = trim_end(line);
        if continues(trimmed) {
            (done, current + without_trailing_backslashes(trimmed))
        } else {
            (done.push(current + line), Seq::empty())
        }
    }
}

/// The logical lines of a tmux configuration: a physical line whose trimmed
/// end carries an odd run of backslashes is joined, without them, to the next.
pub open spec fn logical_lines(contents: Seq<char>) -> Seq<Seq<char>> {
    let lines = physical_lines(contents);
    let (done, current) = logical_state(lines, lines.len() as int);
    if current.len() > 0 {
        done.push(current)
    } else {
        done
    }
}

proof fn lemma_trailing_backslashes_bound(s: Seq<char>)
    ensures
        trailing_backslashes(s) <= s.len(),
    decreases s.len(),
{
    if s.len() > 0 && s.last() == '\\' {
        lemma_trailing_backslashes_bound(s.drop_last());
    }
}

/// Splits characters into lines as `str::lines` does.
fn split_physical_lines(s: &[char]) -> (lines: Vec<Vec<char>>)
    ensures
        lines@.map_values(|l: Vec<char>| l@) == physical_lines(s@),
{
    let mut done: Vec<Vec<char>> = Vec::new();
    let mut current: Vec<char> = Vec::new();
    let mut i: usize = 0;
    while i < s.len()
        invariant
            i <= s@.len(),
            split_state(s@.take(i as int)) == (
                done@.map_values(|l: Vec<char>| l@),
                current@,
            ),
        decreases s.len() - i,
    {
        let c = s[i];
        proof {
            assert(s@.take(i + 1).drop_last() =~= s@.take(i as int));
        }
        if c == '\n' {
            let mut line = current;
            if line.len() > 0 && line[line.len() - 1] == '\r' {
                line.pop();
            }
            done.push(line);
            current = Vec::new();
            proof {
                assert(done@.map_values(|l: Vec<char>| l@) =~= split_state(
                    s@.take(i + 1),
                ).0);
                assert(current@ =~= split_state(s@.take(i + 1)).1);
            }
        } else {
            current.push(c);
            proof {
                assert(done@.map_values(|l: Vec<char>| l@) =~= split_state(
                    s@.take(i + 1),
                ).0);
            }
        }
        i = i + 1;
    }
    proof {
        assert(s@.take(s@.len() as int) =~= s@);
    }
    if current.len() > 0 {
        done.push(current);
        proof {
            assert(done@.map_values(|l: Vec<char>| l@) =~= physical_lines(s@));
        }
    }
    done
}

/// Counts the backslashes that `s` ends with.
fn count_trailing_backslashes(s: &[char]) -> (n: usize)
    ensures
        n == trailing_backslashes(s@),
{
    let mut n: usize = 0;
    proof {
        assert(s@.subrange(0, s@.len() as int) =~= s@);
    }
    while n < s.len() && s[s.len() - 1 - n] == '\\'
        invariant
            n <= s@.len(),
            trailing_backslashes(s@) == n + trailing_backslashes(
                s@.subrange(0, s@.len() - n),
            ),
        decreases s.len() - n,
    {
        proof {
            let t = s@.subrange(0, s@.len() - n);
            assert(t.drop_last() =~= s@.subrange(0, s@.len() - n - 1));
        }
        n = n + 1;
    }
    proof {
        let t = s@.subrange(0, s@.len() - n);
        if n < s@.len() {
            assert(t.last() == s@[s@.len() - 1 - n]);
        }
        assert(s@.subrange(0, s@.len() as int) =~= s@);
    }
    n
}

/// Whether a line, read with its trailing whitespace already removed, goes on
/// to the next line (`has_line_continuation`).
pub fn has_line_continuation(line: &str) -> (r: bool)
    ensures
        r == continues(line@),
{
    let chars = chars_of(line);
    let n = count_trailing_backslashes(chars.as_slice());
    n % 2 == 1
}

/// Joins backslash-continued lines of a tmux configuration into logical lines.
pub fn tmux_logical_lines(contents: &str) -> (lines: Vec<String>)
    ensures
        string_views(lines@) == logical_lines(contents@),
{
    let chars = chars_of(contents);
    let physical = split_physical_lines(chars.as_slice());
    let ghost phys = physical_lines(contents@);
    let mut lines: Vec<String> = Vec::new();
    let mut current: Vec<char> = Vec::new();
    let mut k: usize = 0;
    while k < physical.len()
        invariant
            k <= physical@.len(),
            physical@.map_values(|l: Vec<char>| l@) == phys,
            logical_state(phys, k as int) == (string_views(lines@), current@),
        decreases physical.len() - k,
    {
        let line = &physical[k];
        proof {
            assert(phys[k as int] == line@);
        }
        let n = trim_end_len(line.as_slice());
        let b = count_trailing_backslashes(&line.as_slice()[0..n]);
        proof {
            assert(line@.subrange(0, n as int) == trim_end(line@));
            lemma_trailing_backslashes_bound(trim_end(line@));
        }
        if b % 2 == 1 {
            let mut j: usize = 0;
            while j < n - b
                invariant
                    j <= n - b,
                    b <= n <= line@.len(),
                    current@ == logical_state(phys, k as int).1 + line@.subrange(0, j as int),
                decreases n - b - j,
            {
                current.push(line[j]);
                j = j + 1;
                proof {
                    assert(current@ =~= logical_state(phys, k as int).1 + line@.subrange(
                        0,
                        j as int,
                    ));
                }
            }
            proof {
                assert(without_trailing_backslashes(trim_end(line@)) =~= line@.subrange(
                    0,
                    n - b,
                ));
            }
        } else {
            let mut j: usize = 0;
            while j < line.len()
                invariant
                    j <= line@.len(),
                    current@ == logical_state(phys, k as int).1 + line@.subrange(0, j as int),
                decreases line.len() - j,
            {
                current.push(line[j]);
                j = j + 1;
                proof {
                    assert(current@ =~= logical_state(phys, k as int).1 + line@.subrange(
                        0,
                        j as int,
                    ));
                }
            }
            proof {
                assert(line@.subrange(0, line@.len() as int) =~= line@);
            }
            let joined = string_of(current.as_slice());
            lines.push(joined);
            current = Vec::new();
            proof {
                assert(string_views(lines@) =~= logical_state(phys, k + 1).0);
                assert(current@ =~= logical_state(phys, k + 1).1);
            }
        }
        k = k + 1;
    }
    if current.len() > 0 {
        let rest = string_of(current.as_slice());
        lines.push(rest);
        proof {
            assert(string_views(lines@) =~= logical_lines(contents@));
        }
    }
    lines
}

// ---------------------------------------------------------------------------
// Conditional directives
// ---------------------------------------------------------------------------

/// A tmux conditional directive at the start of a line.
#[derive(Debug, Clone, Copy, PartialEq, Eq, Structural)]
pub enum ConditionalDirective {
    If,
    Elif,
    Else,
    Endif,
}

/// The index of the first whitespace character of `s`, or its length.
pub open spec fn word_end(s: Seq<char>) -> nat
    decreases s.len(),
{
    if s.len() == 0 || is_whitespace(s[0]) {
        0
    } else {
        word_end(s.drop_first()) + 1
    }
}

/// The first whitespace-separated word of `s` (`split_whitespace().next()`).
pub open spec fn first_word(s: Seq<char>) -> Option<Seq<char>> {
    let t = crate::text::trim_start(s);
    if t.len() == 0 {
        None
    } else {
        Some(t.take(word_end(t) as int))
    }
}

/// The directive that a word names, if it names one.
pub open spec fn directive_named(word: Seq<char>) -> Option<ConditionalDirective> {
    if word == seq!['%', 'i', 'f'] {
        Some(ConditionalDirective::If)
    } else if word == seq!['%', 'e', 'l', 'i', 'f'] {
        Some(ConditionalDirective::Elif)
    } else if word == seq!['%', 'e', 'l', 's', 'e'] {
        Some(ConditionalDirective::Else)
    } else if word == seq!['%', 'e', 'n', 'd', 'i', 'f'] {
        Some(ConditionalDirective::Endif)
    } else {
        None
    }
}

/// The conditional directive that a line starts with.
pub open spec fn line_directive(line: Seq<char>) -> Option<ConditionalDirective> {
    match first_word(line) {
        Some(word) => directive_named(word),
        None => None,
    }
}

fn word_matches(w: &[char], lit: &[char]) -> (r: bool)
    ensures
        r == (w@ == lit@),
{
    crate::text::chars_eq(w, lit)
}

/// The conditional directive (`%if`, `%elif`, `%else`, `%endif`) that a line
/// starts with, if any.
pub fn conditional_directive(line: &str) -> (r: Option<ConditionalDirective>)
    ensures
        r == line_directive(line@),
{
    let chars = chars_of(line);
    let start = crate::text::trim_start_index(chars.as_slice());
    if start == chars.len() {
        return None;
    }
    let ghost t = chars@.subrange(start as int, chars@.len() as int);
    let mut end = start;
    while end < chars.len() && !char_is_whitespace(chars[end])
        invariant
            start <= end <= chars@.len(),
            word_end(t) == (end - start) + word_end(chars@.subrange(end as int, chars@.len() as int)),
        decreases chars.len() - end,
    {
        proof {
            assert(chars@.subrange(end as int, chars@.len() as int).drop_first() =~= chars@.subrange(
                end + 1,
                chars@.len() as int,
            ));
        }
        end = end + 1;
    }
    proof {
        assert(t.take(word_end(t) as int) =~= chars@.subrange(start as int, end as int));
    }
    let word = &chars.as_slice()[start..end];
    let if_word = ['%', 'i', 'f'];
    let elif_word = ['%', 'e', 'l', 'i', 'f'];
    let else_word = ['%', 'e', 'l', 's', 'e'];
    let endif_word = ['%', 'e', 'n', 'd', 'i', 'f'];
    proof {
        assert(if_word@ =~= seq!['%', 'i', 'f']);
        assert(elif_word@ =~= seq!['%', 'e', 'l', 'i', 'f']);
        assert(else_word@ =~= seq!['%', 'e', 'l', 's', 'e']);
        assert(endif_word@ =~= seq!['%', 'e', 'n', 'd', 'i', 'f']);
    }
    if word_matches(word, &if_word) {
        Some(ConditionalDirective::If)
    } else if word_matches(word, &elif_word) {
        Some(ConditionalDirective::Elif)
    } else if word_matches(word, &else_word) {
        Some(ConditionalDirective::Else)
    } else if word_matches(word, &endif_word) {
        Some(ConditionalDirective::Endif)
    } else {
        None
    }
}

/// The conditional nesting depth after a directive: `%if` opens a level
/// (saturating), `%endif` closes one (never below zero), `%elif` and `%else`
/// keep it.
pub open spec fn depth_after_directive(depth: usize, d: ConditionalDirective) -> usize {
    match d {
        ConditionalDirective::If => if depth < usize::MAX {
            (depth + 1) as usize
        } else {
            depth
        },
        ConditionalDirective::Endif => if depth > 0 {
            (depth - 1) as usize
        } else {
            0
        },
        _ => depth,
    }
}

/// Applies a conditional directive on `line` to the nesting depth; says
/// whether the line was a directive.
pub fn update_conditional_depth(line: &str, depth: &mut usize) -> (r: bool)
    ensures
        r == line_directive(line@).is_some(),
        *final(depth) == match line_directive(line@) {
            Some(d) => depth_after_directive(*old(depth), d),
            None => *old(depth),
        },
{
    match conditional_directive(line) {
        Some(ConditionalDirective::If) => {
            *depth = depth.saturating_add(1);
        },
        Some(ConditionalDirective::Endif) => {
            *depth = depth.saturating_sub(1);
        },
        Some(_) => {},
        None => {
            return false;
        },
    }
    true
}

// ---------------------------------------------------------------------------
// Command blocks
// ---------------------------------------------------------------------------

/// Where a scan of a line for `{` and `}` stands: the block depth, the quote
/// it is inside, whether the next character is escaped, and whether a comment
/// has ended the scan.
pub struct BraceScan {
    pub depth: usize,
    pub quote: Option<char>,
    pub escaped: bool,
    pub stopped: bool,
}

/// One character of the scan. Outside quotes, `#` starts a comment, `\`
/// escapes the next character, a quote opens a quoted run, `{` opens a block
/// (saturating) and `}` closes one (never below zero). Inside quotes only `\`
/// and the closing quote count.
pub open spec fn brace_step(st: BraceScan, ch: char) -> BraceScan {
    if st.stopped {
        st
    } else if st.escaped {
        BraceScan { escaped: false, ..st }
    } else {
        match st.quote {
            Some(q) => if ch == '\\' {
                BraceScan { escaped: true, ..st }
            } else if ch == q {
                BraceScan { quote: None, ..st }
            } else {
                st
            },
            None => if ch == '#' {
                BraceScan { stopped: true, ..st }
            } else if ch == '\\' {
                BraceScan { escaped: true, ..st }
            } else if ch == '\'' || ch == '"' {
                BraceScan { quote: Some(ch), ..st }
            } else if ch == '{' {
                BraceScan {
                    depth: if st.depth < usize::MAX {
                        (st.depth + 1) as usize
                    } else {
                        st.depth
                    },
                    ..st
                }
            } else if ch == '}' {
                BraceScan {
                    depth: if st.depth > 0 {
                        (st.depth - 1) as usize
                    } else {
                        0
                    },
                    ..st
                }
            } else {
                st
            },
        }
    }
}

/// The scan after reading all of `s`, starting at depth `initial`.
pub open spec fn brace_scan(s: Seq<char>, initial: usize) -> BraceScan
    decreases s.len(),
{
    if s.len() == 0 {
        BraceScan { depth: initial, quote: None, escaped: false, stopped: false }
    } else {
        brace_step(brace_scan(s.drop_last(), initial), s.last())
    }
}

/// The block depth after a line, starting from `initial`.
pub open spec fn brace_depth(s: Seq<char>, initial: usize) -> usize {
    brace_scan(s, initial).depth
}

/// The block depth after `line`, starting from `initial_depth`.
pub fn apply_brace_depth(line: &str, initial_depth: usize) -> (depth: usize)
    ensures
        depth == brace_depth(line@, initial_depth),
{
    let chars = chars_of(line);
    let mut depth = initial_depth;
    let mut quote: Option<char> = None;
    let mut escaped = false;
    let mut stopped = false;
    let mut i: usize = 0;
    while i < chars.len()
        invariant
            i <= chars@.len(),
            chars@ == line@,
            brace_scan(chars@.take(i as int), initial_depth) == (BraceScan {
                depth,
                quote,
                escaped,
                stopped,
            }),
        decreases chars.len() - i,
    {
        let ch = chars[i];
        proof {
            assert(chars@.take(i + 1).drop_last() =~= chars@.take(i as int));
        }
        if stopped {
        } else if escaped {
            escaped = false;
        } else {
            match quote {
                Some(q) => {
                    if ch == '\\' {
                        escaped = true;
                    } else if ch == q {
                        quote = None;
                    }
                },
                None => {
                    if ch == '#' {
                        stopped = true;
                    } else if ch == '\\' {
                        escaped = true;
                    } else if ch == '\'' || ch == '"' {
                        quote = Some(ch);
                    } else if ch == '{' {
                        depth = depth.saturating_add(1);
                    } else if ch == '}' {
                        depth = depth.saturating_sub(1);
                    }
                },
            }
        }
        i = i + 1;
    }
    proof {
        assert(chars@.take(chars@.len() as int) =~= chars@);
    }
    depth
}

/// The block depth that a line opens on its own (`net_brace_depth`).
pub fn net_brace_depth(line: &str) -> (depth: usize)
    ensures
        depth == brace_depth(line@, 0),
{
    apply_brace_depth(line, 0)
}

/// Carries the depth of a skipped command block across one more line.
pub fn update_command_block_depth(line: &str, depth: &mut usize)
    ensures
        *final(depth) == brace_depth(line@, *old(depth)),
{
    *depth = apply_brace_depth(line, *depth);
}

// ---------------------------------------------------------------------------
// Values and arguments
// ---------------------------------------------------------------------------

/// Whether a value holds a `#(` format job.
pub open spec fn has_format_job(v: Seq<char>) -> bool {
    exists|i: int| 0 <= i < v.len() - 1 && #[trigger] v[i] == '#' && v[i + 1] == '('
}

/// Whether an option value runs a shell command through a `#(` format job.
pub fn contains_format_job(value: &str) -> (r: bool)
    ensures
        r == has_format_job(value@),
{
    let v = chars_of(value);
    let mut i: usize = 0;
    while i < v.len()
        invariant
            i <= v@.len(),
            v@ == value@,
            forall|j: int| 0 <= j < i && j < v@.len() - 1 ==> !(#[trigger] v@[j] == '#' && v@[j + 1] == '('),
        decreases v.len() - i,
    {
        if i + 1 < v.len() && v[i] == '#' && v[i + 1] == '(' {
            return true;
        }
        i = i + 1;
    }
    false
}

/// An argument after which no flag is expanded: `--`, `-`, or one that does not
/// start with `-`.
pub open spec fn ends_flags(a: Seq<char>) -> bool {
    a == seq!['-', '-'] || !(a.len() > 0 && a[0] == '-') || a == seq!['-']
}

/// An argument kept as it is: a long option or a single short flag.
pub open spec fn kept_whole(a: Seq<char>) -> bool {
    (a.len() >= 2 && a[0] == '-' && a[1] == '-') || a.len() <= 2
}

/// Whether every character of `c` is in `flags`.
pub open spec fn all_flags_in(c: Seq<char>, flags: Seq<char>) -> bool {
    forall|i: int| 0 <= i < c.len() ==> flags.contains(#[trigger] c[i])
}

/// `-abc` split into `-a`, `-b`, `-c`.
pub open spec fn split_flags(c: Seq<char>) -> Seq<Seq<char>> {
    Seq::new(c.len(), |i: int| seq!['-', c[i]])
}

/// The arguments with each leading cluster of no-argument flags split into
/// single flags, up to the first argument that ends the flags.
pub open spec fn expanded_flags(args: Seq<Seq<char>>, flags: Seq<char>) -> Seq<Seq<char>>
    decreases args.len(),
{
    if args.len() == 0 {
        Seq::empty()
    } else {
        let a = args[0];
        if ends_flags(a) {
            args
        } else if kept_whole(a) {
            seq![a] + expanded_flags(args.drop_first(), flags)
        } else if all_flags_in(a.drop_first(), flags) {
            split_flags(a.drop_first()) + expanded_flags(args.drop_first(), flags)
        } else {
            seq![a] + expanded_flags(args.drop_first(), flags)
        }
    }
}

fn char_in(c: char, set: &[char]) -> (r: bool)
    ensures
        r == set@.contains(c),
{
    let mut i: usize = 0;
    while i < set.len()
        invariant
            i <= set@.len(),
            forall|j: int| 0 <= j < i ==> set@[j] != c,
        decreases set.len() - i,
    {
        if set[i] == c {
            proof {
                assert(set@[i as int] == c);
            }
            return true;
        }
        i = i + 1;
    }
    false
}

fn flag_string(c: char) -> (s: String)
    ensures
        s@ == seq!['-', c],
{
    let mut s = String::new();
    crate::text::string_push(&mut s, '-');
    crate::text::string_push(&mut s, c);
    proof {
        assert(s@ =~= seq!['-', c]);
    }
    s
}

/// Splits leading compact flag clusters such as `-gw` into `-g -w` when every
/// flag in the cluster takes no argument.
pub fn expand_leading_compact_flags(arguments: Vec<String>, no_arg_flags: &str) -> (expanded: Vec<
    String,
>)
    ensures
        string_views(expanded@) == expanded_flags(string_views(arguments@), no_arg_flags@),
{
    let flags = chars_of(no_arg_flags);
    let ghost args = string_views(arguments@);
    let mut expanded: Vec<String> = Vec::new();
    let mut i: usize = 0;
    proof {
        assert(args.skip(0) =~= args);
        assert(string_views(expanded@) =~= Seq::<Seq<char>>::empty());
    }
    while i < arguments.len()
        invariant
            i <= arguments@.len(),
            args == string_views(arguments@),
            flags@ == no_arg_flags@,
            string_views(expanded@) + expanded_flags(args.skip(i as int), flags@)
                == expanded_flags(args, flags@),
        decreases arguments.len() - i,
    {
        let a = chars_of(arguments[i].as_str());
        let ghost rest = args.skip(i as int);
        proof {
            assert(rest[0] == a@);
            assert(rest.drop_first() =~= args.skip(i + 1));
        }
        let dd = a.len() == 2 && a[0] == '-' && a[1] == '-';
        let single = a.len() == 1 && a[0] == '-';
        proof {
            assert(dd == (a@ == seq!['-', '-'])) by {
                if a@ == seq!['-', '-'] {
                    assert(a@[0] == '-' && a@[1] == '-');
                }
                if dd {
                    assert(a@ =~= seq!['-', '-']);
                }
            }
            assert(single == (a@ == seq!['-'])) by {
                if single {
                    assert(a@ =~= seq!['-']);
                }
            }
        }
        if dd || !(a.len() > 0 && a[0] == '-') || single {
            proof {
                assert(expanded_flags(rest, flags@) == rest);
            }
            let mut j = i;
            while j < arguments.len()
                invariant
                    i <= j <= arguments@.len(),
                    args == string_views(arguments@),
                    string_views(expanded@) + args.skip(j as int) == expanded_flags(args, flags@),
                decreases arguments.len() - j,
            {
                let ghost prev = string_views(expanded@);
                let c = arguments[j].clone();
                expanded.push(c);
                proof {
                    assert(string_views(expanded@) =~= prev.push(args[j as int]));
                    assert(args.skip(j as int) =~= seq![args[j as int]] + args.skip(j + 1));
                    assert(string_views(expanded@) + args.skip(j + 1) =~= prev + args.skip(
                        j as int,
                    ));
                }
                j = j + 1;
            }
            proof {
                assert(args.skip(arguments@.len() as int) =~= Seq::<Seq<char>>::empty());
                assert(string_views(expanded@) =~= expanded_flags(args, flags@));
            }
            return expanded;
        }
        let long = a.len() >= 2 && a[0] == '-' && a[1] == '-';
        if long || a.len() <= 2 {
            expanded.push(arguments[i].clone());
            proof {
                assert(string_views(expanded@) + expanded_flags(args.skip(i + 1), flags@)
                    =~= expanded_flags(args, flags@));
            }
        } else {
            let mut all = true;
            let mut k: usize = 1;
            while k < a.len()
                invariant
                    1 <= k <= a@.len(),
                    all == (forall|m: int| 1 <= m < k ==> flags@.contains(#[trigger] a@[m])),
                decreases a.len() - k,
            {
                if !char_in(a[k], flags.as_slice()) {
                    all = false;
                }
                k = k + 1;
            }
            proof {
                let c = a@.drop_first();
                assert(all == all_flags_in(c, flags@)) by {
                    if all {
                        assert forall|m: int| 0 <= m < c.len() implies flags@.contains(
                            #[trigger] c[m],
                        ) by {
                            assert(c[m] == a@[m + 1]);
                        }
                    } else {
                        let m = choose|m: int| 1 <= m < a@.len() && !flags@.contains(#[trigger] a@[m]);
                        assert(c[m - 1] == a@[m]);
                    }
                }
            }
            if all {
                let ghost before = string_views(expanded@);
                let mut k: usize = 1;
                while k < a.len()
                    invariant
                        1 <= k <= a@.len(),
                        string_views(expanded@) == before + split_flags(a@.drop_first()).take(
                            k - 1,
                        ),
                    decreases a.len() - k,
                {
                    let ghost kk = k;
                    let ghost prev = string_views(expanded@);
                    let f = flag_string(a[k]);
                    expanded.push(f);
                    k = k + 1;
                    proof {
                        let c = a@.drop_first();
                        assert(split_flags(c)[kk - 1] == seq!['-', a@[kk as int]]);
                        assert(string_views(expanded@) =~= prev.push(seq!['-', a@[kk as int]]));
                        assert(split_flags(c).take(kk as int) =~= split_flags(c).take(kk - 1).push(
                            split_flags(c)[kk - 1],
                        ));
                        assert(string_views(expanded@) =~= before + split_flags(
                            a@.drop_first(),
                        ).take(k - 1));
                    }
                }
                proof {
                    assert(split_flags(a@.drop_first()).take(a@.len() - 1) =~= split_flags(
                        a@.drop_first(),
                    ));
                    assert(string_views(expanded@) + expanded_flags(args.skip(i + 1), flags@)
                        =~= expanded_flags(args, flags@));
                }
            } else {
                expanded.push(arguments[i].clone());
                proof {
                    assert(string_views(expanded@) + expanded_flags(args.skip(i + 1), flags@)
                        =~= expanded_flags(args, flags@));
                }
            }
        }
        i = i + 1;
    }
    proof {
        assert(args.skip(arguments@.len() as int) =~= Seq::<Seq<char>>::empty());
        assert(string_views(expanded@) =~= expanded_flags(args, flags@));
    }
    expanded
}

/// Characters that make an argument need quoting when it is written back.
pub open spec fn needs_quote(c: char) -> bool {
    is_whitespace(c) || c == '\\' || c == ';' || c == '{' || c == '}' || c == '\'' || c == '"'
        || c == '#'
}

/// A value with each `'` written as `'\''`.
pub open spec fn quote_body(s: Seq<char>) -> Seq<char>
    decreases s.len(),
{
    if s.len() == 0 {
        Seq::empty()
    } else {
        quote_body(s.drop_last()) + if s.last() == '\'' {
            seq!['\'', '\\', '\'', '\'']
        } else {
            seq![s.last()]
        }
    }
}

/// An argument as it is written back into a command line: `''` when empty,
/// unchanged when nothing in it needs quoting, else in single quotes.
pub open spec fn escaped_argument(v: Seq<char>) -> Seq<char> {
    if v.len() == 0 {
        seq!['\'', '\'']
    } else if !(exists|i: int| 0 <= i < v.len() && needs_quote(v[i])) {
        v
    } else {
        seq!['\''] + quote_body(v) + seq!['\'']
    }
}

fn char_needs_quote(c: char) -> (r: bool)
    ensures
        r == needs_quote(c),
{
    char_is_whitespace(c) || c == '\\' || c == ';' || c == '{' || c == '}' || c == '\'' || c
        == '"' || c == '#'
}

/// Writes an argument back so that the command parser reads the same value.
pub fn escape_argument(value: String) -> (r: String)
    ensures
        r@ == escaped_argument(value@),
{
    let v = chars_of(value.as_str());
    if v.len() == 0 {
        let mut e = String::new();
        crate::text::string_push(&mut e, '\'');
        crate::text::string_push(&mut e, '\'');
        proof {
            assert(e@ =~= seq!['\'', '\'']);
        }
        return e;
    }
    let mut any = false;
    let mut i: usize = 0;
    while i < v.len()
        invariant
            i <= v@.len(),
            any == (exists|j: int| 0 <= j < i && needs_quote(v@[j])),
        decreases v.len() - i,
    {
        if char_needs_quote(v[i]) {
            any = true;
        }
        i = i + 1;
        proof {
            if any {
                let j = choose|j: int| 0 <= j < i && needs_quote(v@[j]);
                assert(0 <= j < i && needs_quote(v@[j]));
            }
        }
    }
    if !any {
        return value;
    }
    let mut out = String::new();
    crate::text::string_push(&mut out, '\'');
    let mut i: usize = 0;
    while i < v.len()
        invariant
            i <= v@.len(),
            out@ == seq!['\''] + quote_body(v@.take(i as int)),
        decreases v.len() - i,
    {
        let c = v[i];
        proof {
            assert(v@.take(i + 1).drop_last() =~= v@.take(i as int));
        }
        if c == '\'' {
            crate::text::string_push(&mut out, '\'');
            crate::text::string_push(&mut out, '\\');
            crate::text::string_push(&mut out, '\'');
            crate::text::string_push(&mut out, '\'');
        } else {
            crate::text::string_push(&mut out, c);
        }
        i = i + 1;
        proof {
            assert(out@ =~= seq!['\''] + quote_body(v@.take(i as int)));
        }
    }
    crate::text::string_push(&mut out, '\'');
    proof {
        assert(v@.take(v@.len() as int) =~= v@);
        assert(out@ =~= seq!['\''] + quote_body(v@) + seq!['\'']);
    }
    out
}

// ---------------------------------------------------------------------------
// Filtering a tmux configuration
// ---------------------------------------------------------------------------

/// What the command parser and the option and key tables report of one parsed
/// command, for the commands that a tmux configuration may bring over.
#[derive(Debug)]
pub enum CommandCheck {
    /// What the option table reports of a `set-option` line; the option
    /// name and value are read from the line's own arguments.
    SetOption {
        /// The target parses, the scope resolves, and the option table takes
        /// the option name for that scope and value.
        request_accepted: bool,
        /// The option is on the list of plain options taken from tmux files.
        allowlisted: bool,
        /// A fresh option store accepts the request.
        store_accepts: bool,
    },
    /// The arguments parse as an `unbind-key` request.
    UnbindKey {
        all: bool,
        has_key: bool,
        /// The key names a known key.
        key_known: bool,
        quiet: bool,
        /// The key table exists in a fresh binding store.
        table_exists: bool,
    },
    /// The arguments do not parse as a request of the command's kind.
    Unparsed,
}

/// One command of a parsed line: its canonical name, its arguments as plain
/// strings (`None` when they are not all plain strings), and the check above.
#[derive(Debug)]
pub struct ParsedCommand {
    pub name: String,
    pub arguments: Option<Vec<String>>,
    pub check: CommandCheck,
}

/// A logical line that the command parser accepted.
#[derive(Debug)]
pub struct ParsedLine {
    pub has_assignments: bool,
    pub commands: Vec<ParsedCommand>,
}

/// The no-argument flags of `set-option` and `set-window-option`.
pub open spec fn set_option_flags() -> Seq<char> {
    "gswpaouU"@
}

/// The no-argument flags of `unbind-key`.
pub open spec fn unbind_key_flags() -> Seq<char> {
    "anq"@
}

pub open spec fn is_set_option_name(name: Seq<char>) -> bool {
    name == "set-option"@ || name == "set-window-option"@
}

pub open spec fn is_unbind_key_name(name: Seq<char>) -> bool {
    name == "unbind-key"@
}

/// The check of a target word that takes every word (target syntax is
/// reported by the option table's `request_accepted`).
pub open spec fn any_target() -> spec_fn(Seq<char>) -> Result<(), ()> {
    |t: Seq<char>| Ok::<(), ()>(())
}

/// The `set-option` request that a command's arguments, with compact flags
/// expanded, make: its option name and value, when they parse.
pub open spec fn set_option_request(cmd: ParsedCommand) -> Option<SetOptionTokensView> {
    match cmd.arguments {
        None => None,
        Some(arguments) => match set_option_tokens_spec(
            expanded_flags(string_views(arguments@), set_option_flags()),
            cmd.name@ == "set-window-option"@,
            any_target(),
        ) {
            Ok(t) => Some(t),
            Err(_) => None,
        },
    }
}

/// A `set-option` is brought over when its arguments parse as a request
/// that sets a plain, allow-listed option (not a user `@` option) to a value
/// that runs no `#(` job, and the option table and a fresh store take it.
pub open spec fn set_option_accepted(cmd: ParsedCommand) -> bool {
    match (set_option_request(cmd), cmd.check) {
        (
            Some(request),
            CommandCheck::SetOption { request_accepted, allowlisted, store_accepts },
        ) => {
            &&& !(request.option.len() > 0 && request.option[0] == '@')
            &&& request_accepted
            &&& allowlisted
            &&& !(request.value is Some && has_format_job(request.value->0))
            &&& store_accepts
        },
        _ => false,
    }
}

/// An `unbind-key` is brought over when it names one known key (not `-a`) and
/// either is quiet or names an existing table.
pub open spec fn unbind_key_accepted(cmd: ParsedCommand) -> bool {
    cmd.arguments is Some && match cmd.check {
        CommandCheck::UnbindKey { all, has_key, key_known, quiet, table_exists } => {
            &&& all != has_key
            &&& !all
            &&& (has_key ==> key_known)
            &&& (quiet || table_exists)
        },
        _ => false,
    }
}

/// Whether a command may be brought over from a tmux configuration.
pub open spec fn command_accepted(cmd: ParsedCommand) -> bool {
    if is_set_option_name(cmd.name@) {
        set_option_accepted(cmd)
    } else if is_unbind_key_name(cmd.name@) {
        unbind_key_accepted(cmd)
    } else {
        false
    }
}

/// A command written back: its name, then its arguments with compact flags
/// expanded and each escaped, separated by spaces.
pub open spec fn command_text(cmd: ParsedCommand) -> Option<Seq<char>> {
    match cmd.arguments {
        None => None,
        Some(arguments) => {
            let args = string_views(arguments@);
            let expanded = if is_set_option_name(cmd.name@) {
                expanded_flags(args, set_option_flags())
            } else if is_unbind_key_name(cmd.name@) {
                expanded_flags(args, unbind_key_flags())
            } else {
                args
            };
            Some(
                join(
                    seq![cmd.name@] + expanded.map_values(|a: Seq<char>| escaped_argument(a)),
                    " "@,
                ),
            )
        },
    }
}

/// A command as it is brought over, or `None` when it is refused.
pub open spec fn compatible_command_text(cmd: ParsedCommand) -> Option<Seq<char>> {
    if command_accepted(cmd) {
        command_text(cmd)
    } else {
        None
    }
}

/// The texts of a list of commands, or `None` when any of them is refused.
pub open spec fn commands_text(cmds: Seq<ParsedCommand>) -> Option<Seq<Seq<char>>>
    decreases cmds.len(),
{
    if cmds.len() == 0 {
        Some(Seq::empty())
    } else {
        match (commands_text(cmds.drop_last()), compatible_command_text(cmds.last())) {
            (Some(done), Some(text)) => Some(done.push(text)),
            _ => None,
        }
    }
}

/// The commands of a line as they are brought over: all of them or none,
/// and none from a line that failed to parse, assigns variables, or is empty.
pub open spec fn line_commands(parsed: Option<ParsedLine>) -> Option<Seq<Seq<char>>> {
    match parsed {
        None => None,
        Some(line) => if line.has_assignments || line.commands.len() == 0 {
            None
        } else {
            commands_text(line.commands@)
        },
    }
}

/// The text a logical line contributes, without its newline.
pub open spec fn compatible_line_text(line: Seq<char>, parsed: Option<ParsedLine>) -> Option<
    Seq<char>,
> {
    let t = trim(line);
    if t.len() == 0 || t[0] == '#' || t[0] == '%' {
        None
    } else {
        match line_commands(parsed) {
            Some(cmds) => Some(join(cmds, " ; "@)),
            None => None,
        }
    }
}

/// The filter's state: conditional depth, depth of a skipped command block,
/// and the text kept so far.
pub struct FilterState {
    pub conditional_depth: usize,
    pub block_depth: usize,
    pub kept: Seq<char>,
}

/// One logical line of the filter. Inside a skipped block only the braces
/// count; a conditional directive moves the conditional depth; inside a
/// conditional nothing is kept; a line that opens a block that cannot be
/// brought over starts a skipped block; any other line is kept as it is
/// written back, when it can be.
pub open spec fn filter_step(st: FilterState, line: Seq<char>, parsed: Option<ParsedLine>) -> FilterState {
    if st.block_depth != 0 {
        FilterState { block_depth: brace_depth(line, st.block_depth), ..st }
    } else {
        match line_directive(line) {
            Some(d) => FilterState {
                conditional_depth: depth_after_directive(st.conditional_depth, d),
                ..st
            },
            None => if st.conditional_depth != 0 {
                st
            } else if brace_depth(line, 0) != 0 && line_commands(parsed) is None {
                FilterState { block_depth: brace_depth(line, 0), ..st }
            } else {
                match compatible_line_text(line, parsed) {
                    Some(text) => FilterState { kept: st.kept + text + "\n"@, ..st },
                    None => st,
                }
            },
        }
    }
}

/// What the parser reported of logical line `i` (nothing past the list).
pub open spec fn parsed_at(parsed: Seq<Option<ParsedLine>>, i: int) -> Option<ParsedLine> {
    if 0 <= i < parsed.len() {
        parsed[i]
    } else {
        None
    }
}

/// The filter after the first `k` logical lines.
pub open spec fn filter_state(
    lines: Seq<Seq<char>>,
    parsed: Seq<Option<ParsedLine>>,
    k: int,
) -> FilterState
    decreases k,
{
    if k <= 0 {
        FilterState { conditional_depth: 0, block_depth: 0, kept: Seq::empty() }
    } else {
        filter_step(filter_state(lines, parsed, k - 1), lines[k - 1], parsed_at(parsed, k - 1))
    }
}

/// The configuration text kept from a tmux file, given what the parser
/// reported of each of its logical lines.
pub open spec fn filtered_contents(contents: Seq<char>, parsed: Seq<Option<ParsedLine>>) -> Seq<
    char,
> {
    let lines = logical_lines(contents);
    filter_state(lines, parsed, lines.len() as int).kept
}

fn join_strings(parts: &Vec<String>, sep: &str) -> (r: String)
    ensures
        r@ == join(string_views(parts@), sep@),
{
    let ghost views = string_views(parts@);
    let mut out = String::new();
    let mut i: usize = 0;
    while i < parts.len()
        invariant
            i <= parts@.len(),
            views == string_views(parts@),
            out@ == join(views.take(i as int), sep@),
        decreases parts.len() - i,
    {
        proof {
            assert(views.take(i + 1).drop_last() =~= views.take(i as int));
            assert(views.take(i + 1).last() == parts@[i as int]@);
        }
        if i > 0 {
            out.append(sep);
        }
        out.append(parts[i].as_str());
        proof {
            if i == 0 {
                assert(out@ =~= views.take(1)[0]);
            } else {
                assert(out@ =~= join(views.take(i as int), sep@) + sep@ + parts@[i as int]@);
            }
        }
        i = i + 1;
    }
    proof {
        assert(views.take(parts@.len() as int) =~= views);
    }
    out
}

fn clone_strings(v: &Vec<String>) -> (r: Vec<String>)
    ensures
        string_views(r@) == string_views(v@),
{
    let mut r: Vec<String> = Vec::new();
    let mut i: usize = 0;
    while i < v.len()
        invariant
            i <= v@.len(),
            string_views(r@) == string_views(v@).take(i as int),
        decreases v.len() - i,
    {
        let ghost prev = string_views(r@);
        r.push(v[i].clone());
        proof {
            assert(string_views(r@) =~= prev.push(v@[i as int]@));
            assert(string_views(v@).take(i + 1) =~= string_views(v@).take(i as int).push(
                v@[i as int]@,
            ));
        }
        i = i + 1;
    }
    proof {
        assert(string_views(v@).take(v@.len() as int) =~= string_views(v@));
    }
    r
}

fn starts_with_at(s: &str) -> (r: bool)
    ensures
        r == (s@.len() > 0 && s@[0] == '@'),
{
    let c = chars_of(s);
    c.len() > 0 && c[0] == '@'
}

fn is_set_option_command(name: &str) -> (r: bool)
    ensures
        r == is_set_option_name(name@),
{
    str_eq(name, "set-option") || str_eq(name, "set-window-option")
}

fn is_unbind_key_command(name: &str) -> (r: bool)
    ensures
        r == is_unbind_key_name(name@),
{
    str_eq(name, "unbind-key")
}

/// Whether a `set-option` command may be brought over.
pub fn validate_set_option(command: &ParsedCommand) -> (r: bool)
    ensures
        r == set_option_accepted(*command),
{
    let arguments = match &command.arguments {
        Some(a) => clone_strings(a),
        None => {
            return false;
        },
    };
    let expanded = expand_leading_compact_flags(arguments, "gswpaouU");
    proof {
        reveal_strlit("gswpaouU");
    }
    let force_window = str_eq(command.name.as_str(), "set-window-option");
    let any = |t: &String| -> (r: Result<(), ()>)
        ensures
            r == Ok::<(), ()>(()),
        { Ok(()) };
    proof {
        assert(checks_targets(any, any_target()));
    }
    let request = match parse_set_option_tokens(expanded.as_slice(), force_window, &any) {
        Ok(t) => t,
        Err(_) => {
            return false;
        },
    };
    match &command.check {
        CommandCheck::SetOption { request_accepted, allowlisted, store_accepts } => {
            if starts_with_at(request.option.as_str()) {
                return false;
            }
            if !*request_accepted || !*allowlisted {
                return false;
            }
            match &request.value {
                Some(v) => {
                    if contains_format_job(v.as_str()) {
                        return false;
                    }
                },
                None => {},
            }
            *store_accepts
        },
        _ => false,
    }
}

/// Whether the checks on an `unbind-key` command allow bringing it over.
pub fn validate_unbind_key(command: &ParsedCommand) -> (r: bool)
    ensures
        r == unbind_key_accepted(*command),
{
    if command.arguments.is_none() {
        return false;
    }
    match &command.check {
        CommandCheck::UnbindKey { all, has_key, key_known, quiet, table_exists } => {
            if *all == *has_key {
                return false;
            }
            if *all {
                return false;
            }
            if *has_key && !*key_known {
                return false;
            }
            if !*quiet && !*table_exists {
                return false;
            }
            true
        },
        _ => false,
    }
}

/// Writes a command back as text.
pub fn compatible_command_string(command: &ParsedCommand) -> (r: Option<String>)
    ensures
        match r {
            Some(s) => command_text(*command) == Some(s@),
            None => command_text(*command) is None,
        },
{
    let arguments = match &command.arguments {
        Some(a) => clone_strings(a),
        None => {
            return None;
        },
    };
    let arguments = if is_set_option_command(command.name.as_str()) {
        expand_leading_compact_flags(arguments, "gswpaouU")
    } else if is_unbind_key_command(command.name.as_str()) {
        expand_leading_compact_flags(arguments, "anq")
    } else {
        arguments
    };
    let ghost expanded = string_views(arguments@);
    let mut words: Vec<String> = Vec::new();
    words.push(command.name.clone());
    let mut i: usize = 0;
    while i < arguments.len()
        invariant
            i <= arguments@.len(),
            expanded == string_views(arguments@),
            string_views(words@) == seq![command.name@] + expanded.take(i as int).map_values(
                |a: Seq<char>| escaped_argument(a),
            ),
        decreases arguments.len() - i,
    {
        let ghost prev = string_views(words@);
        let e = escape_argument(arguments[i].clone());
        words.push(e);
        proof {
            assert(string_views(words@) =~= prev.push(escaped_argument(expanded[i as int])));
            assert(expanded.take(i + 1).map_values(|a: Seq<char>| escaped_argument(a))
                =~= expanded.take(i as int).map_values(|a: Seq<char>| escaped_argument(a)).push(
                escaped_argument(expanded[i as int]),
            ));
        }
        i = i + 1;
    }
    proof {
        assert(expanded.take(arguments@.len() as int) =~= expanded);
    }
    Some(join_strings(&words, " "))
}

/// A command as it is brought over, or `None` when it is refused.
pub fn compatible_command(command: &ParsedCommand) -> (r: Option<String>)
    ensures
        match r {
            Some(s) => compatible_command_text(*command) == Some(s@),
            None => compatible_command_text(*command) is None,
        },
{
    let accepted = if is_set_option_command(command.name.as_str()) {
        validate_set_option(command)
    } else if is_unbind_key_command(command.name.as_str()) {
        validate_unbind_key(command)
    } else {
        false
    };
    if accepted {
        compatible_command_string(command)
    } else {
        None
    }
}

/// The commands of a parsed line as they are brought over: all or none.
pub fn compatible_commands(parsed: &Option<ParsedLine>) -> (r: Option<Vec<String>>)
    ensures
        match r {
            Some(v) => line_commands(*parsed) == Some(string_views(v@)),
            None => line_commands(*parsed) is None,
        },
{
    let line = match parsed {
        Some(l) => l,
        None => {
            return None;
        },
    };
    if line.has_assignments || line.commands.len() == 0 {
        return None;
    }
    let ghost cmds = line.commands@;
    let mut texts: Vec<String> = Vec::new();
    let mut i: usize = 0;
    while i < line.commands.len()
        invariant
            i <= cmds.len(),
            cmds == line.commands@,
            *parsed == Some(*line),
            !line.has_assignments,
            cmds.len() > 0,
            commands_text(cmds.take(i as int)) == Some(string_views(texts@)),
        decreases line.commands.len() - i,
    {
        proof {
            assert(cmds.take(i + 1).drop_last() =~= cmds.take(i as int));
            assert(cmds.take(i + 1).last() == cmds[i as int]);
        }
        match compatible_command(&line.commands[i]) {
            Some(text) => {
                let ghost prev = string_views(texts@);
                let ghost tv = text@;
                texts.push(text);
                proof {
                    assert(string_views(texts@) =~= prev.push(tv));
                }
            },
            None => {
                proof {
                    assert(compatible_command_text(cmds[i as int]) is None);
                    assert(commands_text(cmds.take(i + 1)) is None);
                    lemma_commands_text_none_extends(cmds, i as int + 1);
                    assert(*parsed == Some(*line));
                    assert(line_commands(*parsed) == commands_text(cmds));
                }
                return None;
            },
        }
        i = i + 1;
    }
    proof {
        assert(cmds.take(cmds.len() as int) =~= cmds);
    }
    Some(texts)
}

/// Once a prefix of the commands is refused, so is every longer prefix.
proof fn lemma_commands_text_none_extends(cmds: Seq<ParsedCommand>, k: int)
    requires
        0 <= k <= cmds.len(),
        commands_text(cmds.take(k)) is None,
    ensures
        commands_text(cmds) is None,
    decreases cmds.len() - k,
{
    if k < cmds.len() {
        assert(cmds.take(k + 1).drop_last() =~= cmds.take(k));
        lemma_commands_text_none_extends(cmds, k + 1);
    } else {
        assert(cmds.take(k) =~= cmds);
    }
}

/// The text a logical line contributes, without its newline.
pub fn compatible_line(line: &str, parsed: &Option<ParsedLine>) -> (r: Option<String>)
    ensures
        match r {
            Some(s) => compatible_line_text(line@, *parsed) == Some(s@),
            None => compatible_line_text(line@, *parsed) is None,
        },
{
    let trimmed = trim_string(line);
    let t = chars_of(trimmed.as_str());
    if t.len() == 0 || t[0] == '#' || t[0] == '%' {
        return None;
    }
    match compatible_commands(parsed) {
        Some(commands) => Some(join_strings(&commands, " ; ")),
        None => None,
    }
}

/// Keeps the lines of a tmux configuration that rmux can take as they are:
/// plain option settings and key unbindings, written back in rmux's own form.
/// Conditional blocks and command blocks that cannot be brought over are
/// skipped whole. `parsed[i]` is what the command parser reported of the
/// `i`-th logical line (`None` when it did not parse).
pub fn filter_tmux_compat_input(input: &SourceInput, parsed: &Vec<Option<ParsedLine>>) -> (r:
    SourceInput)
    ensures
        r.current_file@ == input.current_file@,
        r.contents@ == filtered_contents(input.contents@, parsed@),
{
    let lines = tmux_logical_lines(input.contents.as_str());
    let ghost views = string_views(lines@);
    let mut contents = String::new();
    let mut conditional_depth: usize = 0;
    let mut command_block_depth: usize = 0;
    let mut i: usize = 0;
    while i < lines.len()
        invariant
            i <= lines@.len(),
            views == string_views(lines@),
            views == logical_lines(input.contents@),
            filter_state(views, parsed@, i as int) == (FilterState {
                conditional_depth,
                block_depth: command_block_depth,
                kept: contents@,
            }),
        decreases lines.len() - i,
    {
        let line = lines[i].as_str();
        proof {
            assert(views[i as int] == line@);
        }
        let verdict: &Option<ParsedLine> = if i < parsed.len() {
            &parsed[i]
        } else {
            &None
        };
        if command_block_depth != 0 {
            update_command_block_depth(line, &mut command_block_depth);
        } else if update_conditional_depth(line, &mut conditional_depth) {
        } else if conditional_depth != 0 {
        } else {
            let net = net_brace_depth(line);
            let supported = if net != 0 {
                compatible_commands(verdict).is_some()
            } else {
                true
            };
            if !supported {
                command_block_depth = net;
            } else {
                match compatible_line(line, verdict) {
                    Some(text) => {
                        contents.append(text.as_str());
                        contents.append("\n");
                    },
                    None => {},
                }
            }
        }
        i = i + 1;
    }
    SourceInput { current_file: input.current_file.clone(), contents }
}

} // verus!
