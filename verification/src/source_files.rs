use vstd::prelude::*;

use crate::text::{
    chars_of, slice_chars, string_of, string_push, trim, trim_string,
};

verus! {

/// The platform whose path conventions apply.
#[derive(Debug, Clone, Copy, PartialEq, Eq, Structural)]
pub enum PathStyle {
    Unix,
    Windows,
}

/// What the configuration search reads from the environment: the raw value of
/// each variable, `None` when unset.
pub struct ConfigEnv {
    pub home: Option<String>,
    pub xdg_config_home: Option<String>,
    pub userprofile: Option<String>,
    pub appdata: Option<String>,
    pub rmux_config_file: Option<String>,
    pub disable_tmux_fallback: Option<String>,
}

// ---------------------------------------------------------------------------
// Byte order mark
// ---------------------------------------------------------------------------

/// The text without a leading UTF-8 byte order mark.
pub open spec fn without_bom(s: Seq<char>) -> Seq<char> {
    if s.len() > 0 && s[0] == '\u{feff}' {
        s.drop_first()
    } else {
        s
    }
}

/// Removes a leading UTF-8 byte order mark from source text.
pub fn strip_utf8_bom(contents: String) -> (r: String)
    ensures
        r@ == without_bom(contents@),
{
    let v = chars_of(contents.as_str());
    if v.len() > 0 && v[0] == '\u{feff}' {
        let rest = slice_chars(v.as_slice(), 1, v.len());
        proof {
            assert(rest@ =~= contents@.drop_first());
        }
        return string_of(rest.as_slice());
    }
    contents
}

// ---------------------------------------------------------------------------
// Windows null device
// ---------------------------------------------------------------------------

pub open spec fn is_path_separator(c: char) -> bool {
    c == '\\' || c == '/'
}

/// `s` without its trailing characters that satisfy `strip`.
pub open spec fn trim_end_path_separators(s: Seq<char>) -> Seq<char>
    decreases s.len(),
{
    if s.len() > 0 && is_path_separator(s.last()) {
        trim_end_path_separators(s.drop_last())
    } else {
        s
    }
}

/// `s` without its trailing colons.
pub open spec fn trim_end_colons(s: Seq<char>) -> Seq<char>
    decreases s.len(),
{
    if s.len() > 0 && s.last() == ':' {
        trim_end_colons(s.drop_last())
    } else {
        s
    }
}

/// The part of `s` after its last path separator (all of it when it has none).
pub open spec fn last_path_component(s: Seq<char>) -> Seq<char>
    decreases s.len(),
{
    if s.len() == 0 {
        s
    } else if is_path_separator(s.last()) {
        Seq::empty()
    } else {
        last_path_component(s.drop_last()).push(s.last())
    }
}

/// The part of `s` before its first `.` (all of it when it has none).
pub open spec fn before_first_dot(s: Seq<char>) -> Seq<char>
    decreases s.len(),
{
    if s.len() == 0 || s[0] == '.' {
        Seq::empty()
    } else {
        seq![s[0]] + before_first_dot(s.drop_first())
    }
}

/// ASCII lower case of one character; other characters are unchanged.
pub open spec fn ascii_lower(c: char) -> char {
    if 'A' <= c <= 'Z' {
        ((c as u32) + 32) as char
    } else {
        c
    }
}

/// `str::eq_ignore_ascii_case`.
pub open spec fn eq_ignore_ascii_case(a: Seq<char>, b: Seq<char>) -> bool {
    a.len() == b.len() && forall|i: int| 0 <= i < a.len() ==> #[trigger] ascii_lower(a[i]) == ascii_lower(b[i])
}

/// Whether a configuration path names the Windows null device `NUL`, in any
/// case, with any directory, extension, trailing colon or separators.
pub open spec fn names_windows_null_device(path: Seq<char>) -> bool {
    eq_ignore_ascii_case(
        before_first_dot(trim_end_colons(last_path_component(trim_end_path_separators(path)))),
        "NUL"@,
    )
}

/// Decides whether a configuration path names the Windows null device.
#[verifier::spinoff_prover]
#[verifier::rlimit(30)]
pub fn is_windows_null_config_path(path: &str) -> (r: bool)
    ensures
        r == names_windows_null_device(path@),
{
    let v = chars_of(path);
    // Trailing separators.
    let mut end = v.len();
    proof {
        assert(v@.subrange(0, end as int) =~= v@);
    }
    while end > 0 && (v[end - 1] == '\\' || v[end - 1] == '/')
        invariant
            end <= v@.len(),
            trim_end_path_separators(v@.subrange(0, end as int)) == trim_end_path_separators(v@),
        decreases end,
    {
        proof {
            assert(v@.subrange(0, end as int).drop_last() =~= v@.subrange(0, end - 1));
        }
        end = end - 1;
    }
    let ghost trimmed = v@.subrange(0, end as int);
    // Last component.
    let mut start = end;
    proof {
        assert(v@.subrange(start as int, end as int) =~= Seq::<char>::empty());
    }
    while start > 0 && !(v[start - 1] == '\\' || v[start - 1] == '/')
        invariant
            start <= end <= v@.len(),
            trimmed == v@.subrange(0, end as int),
            last_path_component(trimmed) == last_path_component(v@.subrange(0, start as int))
                + v@.subrange(start as int, end as int),
            forall|k: int| start <= k < end ==> !is_path_separator(#[trigger] v@[k]),
        decreases start,
    {
        proof {
            let pre = v@.subrange(0, start as int);
            assert(pre.drop_last() =~= v@.subrange(0, start - 1));
            assert(last_path_component(pre) == last_path_component(v@.subrange(0, start - 1)).push(
                v@[start - 1],
            ));
            assert(v@.subrange(start - 1, end as int) =~= seq![v@[start - 1]] + v@.subrange(
                start as int,
                end as int,
            ));
            assert(last_path_component(v@.subrange(0, start - 1)).push(v@[start - 1])
                + v@.subrange(start as int, end as int) =~= last_path_component(
                v@.subrange(0, start - 1),
            ) + v@.subrange(start - 1, end as int));
        }
        start = start - 1;
    }
    proof {
        let pre = v@.subrange(0, start as int);
        if start > 0 {
            assert(last_path_component(pre) =~= Seq::<char>::empty());
        } else {
            assert(pre =~= Seq::<char>::empty());
        }
        assert(last_path_component(trimmed) =~= v@.subrange(start as int, end as int));
    }
    // Trailing colons.
    let mut cend = end;
    proof {
        assert(v@.subrange(start as int, cend as int) == last_path_component(trimmed));
    }
    while cend > start && v[cend - 1] == ':'
        invariant
            start <= cend <= end,
            end <= v@.len(),
            trim_end_colons(v@.subrange(start as int, cend as int)) == trim_end_colons(
                last_path_component(trimmed),
            ),
        decreases cend,
    {
        proof {
            assert(v@.subrange(start as int, cend as int).drop_last() =~= v@.subrange(
                start as int,
                cend - 1,
            ));
        }
        cend = cend - 1;
    }
    let component = slice_chars(v.as_slice(), start, cend);
    proof {
        assert(component@ == trim_end_colons(last_path_component(trimmed)));
    }
    // Stem before the first dot.
    let mut dot: usize = 0;
    proof {
        assert(component@.subrange(0, 0) =~= Seq::<char>::empty());
        assert(component@.subrange(0, component@.len() as int) =~= component@);
        reveal_strlit("NUL");
    }
    while dot < component.len() && component[dot] != '.'
        invariant
            dot <= component@.len(),
            before_first_dot(component@) == component@.subrange(0, dot as int)
                + before_first_dot(component@.subrange(dot as int, component@.len() as int)),
        decreases component.len() - dot,
    {
        proof {
            let rest = component@.subrange(dot as int, component@.len() as int);
            assert(rest.drop_first() =~= component@.subrange(dot + 1, component@.len() as int));
            assert(component@.subrange(0, dot + 1) =~= component@.subrange(0, dot as int) + seq![
                component@[dot as int],
            ]);
        }
        dot = dot + 1;
    }
    proof {
        let rest = component@.subrange(dot as int, component@.len() as int);
        assert(before_first_dot(rest) =~= Seq::<char>::empty());
        assert(before_first_dot(component@) =~= component@.subrange(0, dot as int));
    }
    if dot != 3 {
        return false;
    }
    let a = component[0];
    let b = component[1];
    let c = component[2];
    let r = (a == 'n' || a == 'N') && (b == 'u' || b == 'U') && (c == 'l' || c == 'L');
    proof {
        let stem = component@.subrange(0, 3);
        let nul = "NUL"@;
        reveal_strlit("NUL");
        assert(nul.len() == 3);
        if r {
            assert forall|i: int| 0 <= i < 3 implies #[trigger] ascii_lower(stem[i]) == ascii_lower(
                nul[i],
            ) by {
                assert(stem[i] == component@[i]);
            }
        } else {
            if eq_ignore_ascii_case(stem, nul) {
                assert(ascii_lower(stem[0]) == ascii_lower(nul[0]));
                assert(ascii_lower(stem[1]) == ascii_lower(nul[1]));
                assert(ascii_lower(stem[2]) == ascii_lower(nul[2]));
            }
        }
    }
    r
}

// ---------------------------------------------------------------------------
// Configuration search paths
// ---------------------------------------------------------------------------

/// The views of a list of strings.
pub open spec fn string_views(v: Seq<String>) -> Seq<Seq<char>> {
    v.map_values(|s: String| s@)
}

/// The list with `path` appended unless it is already there.
pub open spec fn push_unique_spec(paths: Seq<Seq<char>>, path: Seq<char>) -> Seq<Seq<char>> {
    if paths.contains(path) {
        paths
    } else {
        paths.push(path)
    }
}

/// The candidates in order, each kept only at its first occurrence.
pub open spec fn unique_in_order(candidates: Seq<Seq<char>>) -> Seq<Seq<char>>
    decreases candidates.len(),
{
    if candidates.len() == 0 {
        Seq::empty()
    } else {
        push_unique_spec(unique_in_order(candidates.drop_last()), candidates.last())
    }
}

/// The value of an environment variable when it is set and not empty.
pub open spec fn nonempty_value(value: Option<String>) -> Option<Seq<char>> {
    match value {
        Some(v) => if v@.len() > 0 {
            Some(v@)
        } else {
            None
        },
        None => None,
    }
}

/// `candidates` followed by `prefix + suffix` when `prefix` is there.
pub open spec fn with_candidate(
    candidates: Seq<Seq<char>>,
    prefix: Option<Seq<char>>,
    suffix: Seq<char>,
) -> Seq<Seq<char>> {
    match prefix {
        Some(p) => candidates.push(p + suffix),
        None => candidates,
    }
}

/// `PathBuf::push` of a relative component without separators, as on Windows:
/// a separator is added unless the base is empty, already ends in one, or is
/// a bare drive such as `C:`.
pub open spec fn windows_join(base: Seq<char>, component: Seq<char>) -> Seq<char> {
    if base.len() == 0 || is_path_separator(base.last()) || (base.len() == 2 && (('a' <= base[0]
        <= 'z') || ('A' <= base[0] <= 'Z')) && base[1] == ':') {
        base + component
    } else {
        base + seq!['\\'] + component
    }
}

/// `candidates` followed by the Windows path `base\first\second` (or
/// `base\first` when there is no `second`) when `base` is there.
pub open spec fn with_windows_candidate(
    candidates: Seq<Seq<char>>,
    base: Option<Seq<char>>,
    first: Seq<char>,
    second: Option<Seq<char>>,
) -> Seq<Seq<char>> {
    match base {
        Some(b) => match second {
            None => candidates.push(windows_join(b, first)),
            Some(s) => candidates.push(windows_join(windows_join(b, first), s)),
        },
        None => candidates,
    }
}

/// The places where rmux looks for its own configuration on Unix, in order.
pub open spec fn unix_default_candidates(env: ConfigEnv) -> Seq<Seq<char>> {
    let home = nonempty_value(env.home);
    let xdg = nonempty_value(env.xdg_config_home);
    with_candidate(
        with_candidate(
            with_candidate(seq!["/etc/rmux.conf"@], home, "/.rmux.conf"@),
            xdg,
            "/rmux/rmux.conf"@,
        ),
        home,
        "/.config/rmux/rmux.conf"@,
    )
}

/// The places where rmux looks for a tmux configuration on Unix, in order.
pub open spec fn unix_tmux_candidates(env: ConfigEnv) -> Seq<Seq<char>> {
    let home = nonempty_value(env.home);
    let xdg = nonempty_value(env.xdg_config_home);
    with_candidate(
        with_candidate(
            with_candidate(seq!["/etc/tmux.conf"@], home, "/.tmux.conf"@),
            xdg,
            "/tmux/tmux.conf"@,
        ),
        home,
        "/.config/tmux/tmux.conf"@,
    )
}

/// The places where rmux looks for its own configuration on Windows, in order.
pub open spec fn windows_default_candidates(env: ConfigEnv) -> Seq<Seq<char>> {
    let configured = nonempty_value(env.rmux_config_file);
    let listed = with_windows_candidate(
        with_windows_candidate(
            with_windows_candidate(
                Seq::empty(),
                nonempty_value(env.xdg_config_home),
                "rmux"@,
                Some("rmux.conf"@),
            ),
            nonempty_value(env.userprofile),
            ".rmux.conf"@,
            None,
        ),
        nonempty_value(env.appdata),
        "rmux"@,
        Some("rmux.conf"@),
    );
    match configured {
        Some(c) => listed.push(c),
        None => listed,
    }
}

/// The places where rmux looks for a tmux configuration on Windows, in order.
pub open spec fn windows_tmux_candidates(env: ConfigEnv) -> Seq<Seq<char>> {
    with_windows_candidate(
        with_windows_candidate(
            with_windows_candidate(
                Seq::empty(),
                nonempty_value(env.xdg_config_home),
                "tmux"@,
                Some("tmux.conf"@),
            ),
            nonempty_value(env.userprofile),
            ".tmux.conf"@,
            None,
        ),
        nonempty_value(env.appdata),
        "tmux"@,
        Some("tmux.conf"@),
    )
}

/// The ASCII lower case of a string.
pub open spec fn ascii_lowercase(s: Seq<char>) -> Seq<char> {
    s.map_values(|c: char| ascii_lower(c))
}

/// Whether an environment flag is on: set, not blank, and not one of `0`,
/// `false`, `no` or `off` in any ASCII case (surrounding whitespace ignored).
pub open spec fn env_flag_on(value: Option<String>) -> bool {
    match value {
        None => false,
        Some(v) => {
            let t = trim(v@);
            t.len() > 0 && ascii_lowercase(t) != "0"@ && ascii_lowercase(t) != "false"@
                && ascii_lowercase(t) != "no"@ && ascii_lowercase(t) != "off"@
        },
    }
}

fn string_eq(a: &String, b: &String) -> (r: bool)
    ensures
        r == (a@ == b@),
{
    let x = chars_of(a.as_str());
    let y = chars_of(b.as_str());
    crate::text::chars_eq(x.as_slice(), y.as_slice())
}

fn push_unique(paths: &mut Vec<String>, path: String)
    ensures
        string_views(final(paths)@) == push_unique_spec(string_views(old(paths)@), path@),
{
    let mut i: usize = 0;
    while i < paths.len()
        invariant
            i <= paths@.len(),
            forall|j: int| 0 <= j < i ==> paths@[j]@ != path@,
        decreases paths.len() - i,
    {
        if string_eq(&paths[i], &path) {
            proof {
                assert(string_views(paths@)[i as int] == path@);
            }
            return ;
        }
        i = i + 1;
    }
    let ghost before = paths@;
    proof {
        if string_views(before).contains(path@) {
            let j = choose|j: int| 0 <= j < string_views(before).len() && string_views(before)[j]
                == path@;
            assert(before[j]@ == path@);
        }
    }
    paths.push(path);
    proof {
        assert(string_views(paths@) =~= string_views(before).push(path@));
    }
}

fn nonempty(value: &Option<String>) -> (r: Option<String>)
    ensures
        match r {
            Some(v) => nonempty_value(*value) == Some(v@),
            None => nonempty_value(*value) is None,
        },
{
    match value {
        Some(v) => if v.as_str().is_empty() {
            None
        } else {
            Some(v.clone())
        },
        None => None,
    }
}

fn concat(a: &String, b: &str) -> (r: String)
    ensures
        r@ == a@ + b@,
{
    let mut r = a.clone();
    r.append(b);
    r
}

/// `PathBuf::push` of a relative, separator-free component, Windows style.
pub fn windows_join_path(base: &String, component: &str) -> (r: String)
    ensures
        r@ == windows_join(base@, component@),
{
    let v = chars_of(base.as_str());
    let mut r = base.clone();
    let drive = v.len() == 2 && (('a' <= v[0] && v[0] <= 'z') || ('A' <= v[0] && v[0] <= 'Z'))
        && v[1] == ':';
    if !(v.len() == 0 || v[v.len() - 1] == '\\' || v[v.len() - 1] == '/' || drive) {
        string_push(&mut r, '\\');
    }
    r.append(component);
    proof {
        assert(r@ =~= windows_join(base@, component@));
    }
    r
}

proof fn lemma_unique_step(candidates: Seq<Seq<char>>, path: Seq<char>)
    ensures
        unique_in_order(candidates.push(path)) == push_unique_spec(unique_in_order(candidates), path),
{
    assert(candidates.push(path).drop_last() =~= candidates);
}

/// The rmux configuration files to load on Unix, in order, without repeats.
pub fn unix_default_config_paths(env: &ConfigEnv) -> (paths: Vec<String>)
    ensures
        string_views(paths@) == unique_in_order(unix_default_candidates(*env)),
{
    let home = nonempty(&env.home);
    let xdg = nonempty(&env.xdg_config_home);
    let mut paths: Vec<String> = Vec::new();
    let ghost mut c: Seq<Seq<char>> = Seq::empty();
    proof {
        assert(string_views(paths@) =~= unique_in_order(c));
    }
    push_unique(&mut paths, String::from_str("/etc/rmux.conf"));
    proof {
        lemma_unique_step(c, "/etc/rmux.conf"@);
        c = c.push("/etc/rmux.conf"@);
    }
    if let Some(h) = &home {
        let p = concat(h, "/.rmux.conf");
        push_unique(&mut paths, p);
        proof {
            lemma_unique_step(c, p@);
            c = c.push(p@);
        }
    }
    if let Some(x) = &xdg {
        let p = concat(x, "/rmux/rmux.conf");
        push_unique(&mut paths, p);
        proof {
            lemma_unique_step(c, p@);
            c = c.push(p@);
        }
    }
    if let Some(h) = &home {
        let p = concat(h, "/.config/rmux/rmux.conf");
        push_unique(&mut paths, p);
        proof {
            lemma_unique_step(c, p@);
            c = c.push(p@);
        }
    }
    proof {
        assert(seq!["/etc/rmux.conf"@] =~= Seq::<Seq<char>>::empty().push("/etc/rmux.conf"@));
        assert(c =~= unix_default_candidates(*env));
    }
    paths
}

/// The tmux configuration files to fall back to on Unix, in order, without
/// repeats.
pub fn unix_tmux_fallback_paths(env: &ConfigEnv) -> (paths: Vec<String>)
    ensures
        string_views(paths@) == unique_in_order(unix_tmux_candidates(*env)),
{
    let home = nonempty(&env.home);
    let xdg = nonempty(&env.xdg_config_home);
    let mut paths: Vec<String> = Vec::new();
    let ghost mut c: Seq<Seq<char>> = Seq::empty();
    proof {
        assert(string_views(paths@) =~= unique_in_order(c));
    }
    push_unique(&mut paths, String::from_str("/etc/tmux.conf"));
    proof {
        lemma_unique_step(c, "/etc/tmux.conf"@);
        c = c.push("/etc/tmux.conf"@);
    }
    if let Some(h) = &home {
        let p = concat(h, "/.tmux.conf");
        push_unique(&mut paths, p);
        proof {
            lemma_unique_step(c, p@);
            c = c.push(p@);
        }
    }
    if let Some(x) = &xdg {
        let p = concat(x, "/tmux/tmux.conf");
        push_unique(&mut paths, p);
        proof {
            lemma_unique_step(c, p@);
            c = c.push(p@);
        }
    }
    if let Some(h) = &home {
        let p = concat(h, "/.config/tmux/tmux.conf");
        push_unique(&mut paths, p);
        proof {
            lemma_unique_step(c, p@);
            c = c.push(p@);
        }
    }
    proof {
        assert(seq!["/etc/tmux.conf"@] =~= Seq::<Seq<char>>::empty().push("/etc/tmux.conf"@));
        assert(c =~= unix_tmux_candidates(*env));
    }
    paths
}

/// The rmux configuration files to load on Windows, in order, without repeats.
pub fn windows_default_config_paths(env: &ConfigEnv) -> (paths: Vec<String>)
    ensures
        string_views(paths@) == unique_in_order(windows_default_candidates(*env)),
{
    let mut paths: Vec<String> = Vec::new();
    let ghost mut c: Seq<Seq<char>> = Seq::empty();
    proof {
        assert(string_views(paths@) =~= unique_in_order(c));
    }
    if let Some(x) = nonempty(&env.xdg_config_home) {
        let p = windows_join_path(&windows_join_path(&x, "rmux"), "rmux.conf");
        push_unique(&mut paths, p);
        proof {
            lemma_unique_step(c, p@);
            c = c.push(p@);
        }
    }
    if let Some(u) = nonempty(&env.userprofile) {
        let p = windows_join_path(&u, ".rmux.conf");
        push_unique(&mut paths, p);
        proof {
            lemma_unique_step(c, p@);
            c = c.push(p@);
        }
    }
    if let Some(a) = nonempty(&env.appdata) {
        let p = windows_join_path(&windows_join_path(&a, "rmux"), "rmux.conf");
        push_unique(&mut paths, p);
        proof {
            lemma_unique_step(c, p@);
            c = c.push(p@);
        }
    }
    if let Some(f) = nonempty(&env.rmux_config_file) {
        let ghost fv = f@;
        push_unique(&mut paths, f);
        proof {
            lemma_unique_step(c, fv);
            c = c.push(fv);
        }
    }
    proof {
        assert(c =~= windows_default_candidates(*env));
    }
    paths
}

/// The tmux configuration files to fall back to on Windows, in order, without
/// repeats.
pub fn windows_tmux_fallback_paths(env: &ConfigEnv) -> (paths: Vec<String>)
    ensures
        string_views(paths@) == unique_in_order(windows_tmux_candidates(*env)),
{
    let mut paths: Vec<String> = Vec::new();
    let ghost mut c: Seq<Seq<char>> = Seq::empty();
    proof {
        assert(string_views(paths@) =~= unique_in_order(c));
    }
    if let Some(x) = nonempty(&env.xdg_config_home) {
        let p = windows_join_path(&windows_join_path(&x, "tmux"), "tmux.conf");
        push_unique(&mut paths, p);
        proof {
            lemma_unique_step(c, p@);
            c = c.push(p@);
        }
    }
    if let Some(u) = nonempty(&env.userprofile) {
        let p = windows_join_path(&u, ".tmux.conf");
        push_unique(&mut paths, p);
        proof {
            lemma_unique_step(c, p@);
            c = c.push(p@);
        }
    }
    if let Some(a) = nonempty(&env.appdata) {
        let p = windows_join_path(&windows_join_path(&a, "tmux"), "tmux.conf");
        push_unique(&mut paths, p);
        proof {
            lemma_unique_step(c, p@);
            c = c.push(p@);
        }
    }
    proof {
        assert(c =~= windows_tmux_candidates(*env));
    }
    paths
}

fn lowercase_ascii(v: &[char]) -> (r: Vec<char>)
    ensures
        r@ == ascii_lowercase(v@),
{
    let mut r: Vec<char> = Vec::new();
    let mut i: usize = 0;
    while i < v.len()
        invariant
            i <= v@.len(),
            r@ == ascii_lowercase(v@.subrange(0, i as int)),
        decreases v.len() - i,
    {
        let c = v[i];
        let l = if 'A' <= c && c <= 'Z' {
            ((c as u8) + 32) as char
        } else {
            c
        };
        proof {
            if 'A' <= c && c <= 'Z' {
                assert((c as u8) as u32 == c as u32);
            }
            assert(l == ascii_lower(c));
        }
        r.push(l);
        i = i + 1;
        proof {
            assert(r@ =~= ascii_lowercase(v@.subrange(0, i as int)));
        }
    }
    proof {
        assert(v@.subrange(0, v@.len() as int) =~= v@);
    }
    r
}

/// Whether an environment flag with the given raw value is on.
pub fn env_flag_enabled(value: &Option<String>) -> (r: bool)
    ensures
        r == env_flag_on(*value),
{
    match value {
        None => false,
        Some(v) => {
            let t = trim_string(v.as_str());
            let tv = chars_of(t.as_str());
            if tv.len() == 0 {
                return false;
            }
            let lower = lowercase_ascii(tv.as_slice());
            let off = crate::text::chars_eq(lower.as_slice(), chars_of("0").as_slice())
                || crate::text::chars_eq(lower.as_slice(), chars_of("false").as_slice())
                || crate::text::chars_eq(lower.as_slice(), chars_of("no").as_slice())
                || crate::text::chars_eq(lower.as_slice(), chars_of("off").as_slice());
            !off
        },
    }
}

/// The rmux configuration files to load, for the platform's conventions.
pub fn default_config_paths(env: &ConfigEnv, style: PathStyle) -> (paths: Vec<String>)
    ensures
        string_views(paths@) == unique_in_order(
            match style {
                PathStyle::Unix => unix_default_candidates(*env),
                PathStyle::Windows => windows_default_candidates(*env),
            },
        ),
{
    match style {
        PathStyle::Unix => unix_default_config_paths(env),
        PathStyle::Windows => windows_default_config_paths(env),
    }
}

/// The tmux configuration files to fall back to: none when the
/// `RMUX_DISABLE_TMUX_FALLBACK` flag is on, else the platform's list.
pub fn default_tmux_fallback_paths(env: &ConfigEnv, style: PathStyle) -> (paths: Vec<String>)
    ensures
        string_views(paths@) == if env_flag_on(env.disable_tmux_fallback) {
            Seq::empty()
        } else {
            unique_in_order(
                match style {
                    PathStyle::Unix => unix_tmux_candidates(*env),
                    PathStyle::Windows => windows_tmux_candidates(*env),
                },
            )
        },
{
    if env_flag_enabled(&env.disable_tmux_fallback) {
        let empty: Vec<String> = Vec::new();
        proof {
            assert(string_views(empty@) =~= Seq::<Seq<char>>::empty());
        }
        return empty;
    }
    match style {
        PathStyle::Unix => unix_tmux_fallback_paths(env),
        PathStyle::Windows => windows_tmux_fallback_paths(env),
    }
}

// ---------------------------------------------------------------------------
// Paths of sourced files and glob patterns
// ---------------------------------------------------------------------------

/// `s` with every `from` replaced by `to`.
pub open spec fn replace_char(s: Seq<char>, from: char, to: char) -> Seq<char> {
    s.map_values(|c: char| if c == from { to } else { c })
}

fn replace_char_string(s: &str, from: char, to: char) -> (r: String)
    ensures
        r@ == replace_char(s@, from, to),
{
    let v = chars_of(s);
    let mut out = String::new();
    let mut i: usize = 0;
    while i < v.len()
        invariant
            i <= v@.len(),
            v@ == s@,
            out@ == replace_char(v@.subrange(0, i as int), from, to),
        decreases v.len() - i,
    {
        let c = v[i];
        string_push(&mut out, if c == from { to } else { c });
        i = i + 1;
        proof {
            assert(out@ =~= replace_char(v@.subrange(0, i as int), from, to));
        }
    }
    proof {
        assert(v@.subrange(0, v@.len() as int) =~= v@);
    }
    out
}

/// A path written as a glob pattern: on Windows, backslashes become forward
/// slashes; on Unix the path is the pattern.
pub open spec fn glob_pattern_of_path(path: Seq<char>, style: PathStyle) -> Seq<char> {
    match style {
        PathStyle::Unix => path,
        PathStyle::Windows => replace_char(path, '\\', '/'),
    }
}

/// A path as it is shown for a sourced file: on Windows, forward slashes
/// become backslashes; on Unix it is shown as it is.
pub open spec fn display_path(path: Seq<char>, style: PathStyle) -> Seq<char> {
    match style {
        PathStyle::Unix => path,
        PathStyle::Windows => replace_char(path, '/', '\\'),
    }
}

/// Writes a path as a glob pattern.
pub fn path_to_glob_pattern(path: &str, style: PathStyle) -> (r: String)
    ensures
        r@ == glob_pattern_of_path(path@, style),
{
    match style {
        PathStyle::Unix => String::from_str(path),
        PathStyle::Windows => replace_char_string(path, '\\', '/'),
    }
}

/// Writes the path of a sourced file as it is shown to the user.
pub fn source_entry_display_path(path: &str, style: PathStyle) -> (r: String)
    ensures
        r@ == display_path(path@, style),
{
    match style {
        PathStyle::Unix => String::from_str(path),
        PathStyle::Windows => replace_char_string(path, '/', '\\'),
    }
}

/// Whether a character is special in glob patterns: `?`, `*`, `[` or `]`.
pub open spec fn is_glob_special(c: char) -> bool {
    c == '?' || c == '*' || c == '[' || c == ']'
}

/// `glob::Pattern::escape`: each special character is wrapped in brackets.
pub open spec fn glob_escaped(s: Seq<char>) -> Seq<char>
    decreases s.len(),
{
    if s.len() == 0 {
        Seq::empty()
    } else {
        glob_escaped(s.drop_last()) + if is_glob_special(s.last()) {
            seq!['[', s.last(), ']']
        } else {
            seq![s.last()]
        }
    }
}

/// Escapes a literal path for use in a glob pattern.
///
/// Trusted: calls `glob::Pattern::escape`, which (glob 0.3.4, src/lib.rs)
/// copies each character and wraps `?`, `*`, `[` and `]` in brackets; the
/// contract states exactly that.
#[verifier::external_body]
fn glob_escape(s: &str) -> (r: String)
    ensures
        r@ == glob_escaped(s@),
{
    glob::Pattern::escape(s)
}

/// `Path::is_absolute` under the given platform's conventions: on Unix a
/// leading `/`; on Windows a UNC, device or verbatim prefix (two leading
/// separators) or a drive letter followed by `:` and a separator.
pub open spec fn is_absolute_path(path: Seq<char>, style: PathStyle) -> bool {
    match style {
        PathStyle::Unix => path.len() > 0 && path[0] == '/',
        PathStyle::Windows => (path.len() >= 2 && is_path_separator(path[0]) && is_path_separator(
            path[1],
        )) || (path.len() >= 3 && (('a' <= path[0] <= 'z') || ('A' <= path[0] <= 'Z')) && path[1]
            == ':' && is_path_separator(path[2])),
    }
}

/// The glob pattern that a `source-file` path stands for: an absolute path
/// as it is; a relative one under the caller's working directory, whose own
/// characters are escaped.
pub open spec fn source_glob_pattern(
    path: Seq<char>,
    cwd: Option<Seq<char>>,
    style: PathStyle,
) -> Seq<char> {
    if is_absolute_path(path, style) {
        glob_pattern_of_path(path, style)
    } else {
        match cwd {
            Some(dir) => glob_escaped(glob_pattern_of_path(dir, style)) + seq!['/']
                + glob_pattern_of_path(path, style),
            None => glob_pattern_of_path(path, style),
        }
    }
}

fn is_absolute(path: &str, style: PathStyle) -> (r: bool)
    ensures
        r == is_absolute_path(path@, style),
{
    let v = chars_of(path);
    match style {
        PathStyle::Unix => v.len() > 0 && v[0] == '/',
        PathStyle::Windows => (v.len() >= 2 && (v[0] == '\\' || v[0] == '/') && (v[1] == '\\'
            || v[1] == '/')) || (v.len() >= 3 && (('a' <= v[0] && v[0] <= 'z') || ('A' <= v[0]
            && v[0] <= 'Z')) && v[1] == ':' && (v[2] == '\\' || v[2] == '/')),
    }
}

/// Builds the glob pattern for a `source-file` path.
pub fn glob_pattern_for_source_path(path: &str, cwd: Option<&str>, style: PathStyle) -> (r: String)
    ensures
        r@ == source_glob_pattern(
            path@,
            match cwd {
                Some(c) => Some(c@),
                None => None,
            },
            style,
        ),
{
    if is_absolute(path, style) {
        return path_to_glob_pattern(path, style);
    }
    match cwd {
        Some(dir) => {
            let dir_pattern = path_to_glob_pattern(dir, style);
            let mut r = glob_escape(dir_pattern.as_str());
            string_push(&mut r, '/');
            let rest = path_to_glob_pattern(path, style);
            r.append(rest.as_str());
            r
        },
        None => path_to_glob_pattern(path, style),
    }
}

// ---------------------------------------------------------------------------
// Reading sourced files
// ---------------------------------------------------------------------------

/// The largest tmux configuration file that is read, in bytes.
pub const MAX_TMUX_COMPAT_CONFIG_BYTES: u64 = 1048576;

/// How the files that a `source-file` names are read.
#[derive(Debug, Clone, Copy, PartialEq, Eq, Structural)]
pub enum SourceReadPolicy {
    /// rmux configuration: a file that cannot be read is an error.
    Strict,
    /// tmux configuration: a file that cannot be read is skipped.
    BestEffort,
}

/// The kind of a failed read, as far as the decisions here need it.
#[derive(Debug, Clone, Copy, PartialEq, Eq, Structural)]
pub enum ReadFailureKind {
    NotFound,
    InvalidInput,
    InvalidData,
    Other,
}

/// A read that failed, and its message.
#[derive(Debug)]
pub struct ReadFailure {
    pub kind: ReadFailureKind,
    pub message: String,
}

/// What is known of a file before it is read.
#[derive(Debug, Clone, Copy, PartialEq, Eq, Structural)]
pub struct FileFacts {
    pub is_symlink: bool,
    pub is_file: bool,
    pub len: u64,
}

/// One source of configuration text and where it came from.
#[derive(Debug)]
pub struct SourceInput {
    pub current_file: String,
    pub contents: String,
}

/// A `source-file` failure, in the two forms that the server reports.
#[derive(Debug, PartialEq, Eq)]
pub enum SourceError {
    /// A server-side failure with its message.
    Server(String),
    /// A message shown to the user as it is.
    Message(String),
}

/// One file that a glob pattern matched, and the outcome of reading it.
#[derive(Debug)]
pub struct SourceEntryRead {
    /// The path of the file as the glob produced it.
    pub path: String,
    /// Its text, or why it could not be read.
    pub contents: Result<String, ReadFailure>,
}

/// The failure of a tmux configuration file over the size limit.
pub fn oversized_tmux_compat_config_error() -> (e: ReadFailure)
    ensures
        e.kind == ReadFailureKind::InvalidData,
        e.message@ == "tmux fallback config exceeds 1 MiB"@,
{
    ReadFailure {
        kind: ReadFailureKind::InvalidData,
        message: String::from_str("tmux fallback config exceeds 1 MiB"),
    }
}

fn not_regular_file_error() -> (e: ReadFailure)
    ensures
        e.kind == ReadFailureKind::InvalidInput,
        e.message@ == "tmux fallback config is not a regular file"@,
{
    ReadFailure {
        kind: ReadFailureKind::InvalidInput,
        message: String::from_str("tmux fallback config is not a regular file"),
    }
}

/// Accepts an opened tmux configuration file only when it is a regular file
/// within the size limit.
pub fn validate_tmux_compat_regular_metadata(facts: &FileFacts) -> (r: Result<(), ReadFailure>)
    ensures
        match r {
            Ok(()) => facts.is_file && facts.len <= MAX_TMUX_COMPAT_CONFIG_BYTES,
            Err(e) => if !facts.is_file {
                e.kind == ReadFailureKind::InvalidInput && e.message@
                    == "tmux fallback config is not a regular file"@
            } else {
                facts.len > MAX_TMUX_COMPAT_CONFIG_BYTES && e.kind == ReadFailureKind::InvalidData
                    && e.message@ == "tmux fallback config exceeds 1 MiB"@
            },
        },
{
    if !facts.is_file {
        return Err(not_regular_file_error());
    }
    if facts.len > MAX_TMUX_COMPAT_CONFIG_BYTES {
        return Err(oversized_tmux_compat_config_error());
    }
    Ok(())
}

/// Accepts a tmux configuration path before it is opened only when it is not
/// a symbolic link and is a regular file within the size limit.
pub fn validate_tmux_compat_preopen_metadata(facts: &FileFacts) -> (r: Result<(), ReadFailure>)
    ensures
        match r {
            Ok(()) => !facts.is_symlink && facts.is_file && facts.len
                <= MAX_TMUX_COMPAT_CONFIG_BYTES,
            Err(e) => if facts.is_symlink || !facts.is_file {
                e.kind == ReadFailureKind::InvalidInput && e.message@
                    == "tmux fallback config is not a regular file"@
            } else {
                facts.len > MAX_TMUX_COMPAT_CONFIG_BYTES && e.kind == ReadFailureKind::InvalidData
                    && e.message@ == "tmux fallback config exceeds 1 MiB"@
            },
        },
{
    if facts.is_symlink {
        return Err(not_regular_file_error());
    }
    validate_tmux_compat_regular_metadata(facts)
}

/// Accepts the text read from a tmux configuration file only when it is
/// within the size limit (`len` is its length in bytes).
pub fn validate_tmux_compat_contents_len(len: u64) -> (r: Result<(), ReadFailure>)
    ensures
        match r {
            Ok(()) => len <= MAX_TMUX_COMPAT_CONFIG_BYTES,
            Err(e) => len > MAX_TMUX_COMPAT_CONFIG_BYTES && e.kind == ReadFailureKind::InvalidData
                && e.message@ == "tmux fallback config exceeds 1 MiB"@,
        },
{
    if len > MAX_TMUX_COMPAT_CONFIG_BYTES {
        return Err(oversized_tmux_compat_config_error());
    }
    Ok(())
}

/// The inputs of a `source-file` path that needs no file system: the Windows
/// null device (empty text) and `-` (the client's standard input). `None` for
/// any other path, whose files are found with a glob.
pub open spec fn source_inputs_without_files_spec(
    path: Seq<char>,
    stdin: Option<Seq<char>>,
    style: PathStyle,
) -> Option<Result<Seq<(Seq<char>, Seq<char>)>, SourceErrorView>> {
    if style == PathStyle::Windows && names_windows_null_device(path) {
        Some(Ok(seq![(path, Seq::<char>::empty())]))
    } else if path == "-"@ {
        match stdin {
            None => Some(Err(SourceErrorView::Server("source-file - requires client stdin"@))),
            Some(text) => Some(Ok(seq![("-"@, without_bom(text))])),
        }
    } else {
        None
    }
}

/// The abstract value of a `SourceError`.
pub enum SourceErrorView {
    Server(Seq<char>),
    Message(Seq<char>),
}

pub open spec fn source_error_view(e: SourceError) -> SourceErrorView {
    match e {
        SourceError::Server(m) => SourceErrorView::Server(m@),
        SourceError::Message(m) => SourceErrorView::Message(m@),
    }
}

/// The file name and text of each input.
pub open spec fn input_views(inputs: Seq<SourceInput>) -> Seq<(Seq<char>, Seq<char>)> {
    inputs.map_values(|i: SourceInput| (i.current_file@, i.contents@))
}

/// Handles the `source-file` paths that need no file system.
pub fn source_inputs_without_files(path: &str, stdin: Option<&str>, style: PathStyle) -> (r: Option<
    Result<Vec<SourceInput>, SourceError>,
>)
    ensures
        match r {
            None => source_inputs_without_files_spec(
                path@,
                match stdin {
                    Some(s) => Some(s@),
                    None => None,
                },
                style,
            ) is None,
            Some(Ok(inputs)) => source_inputs_without_files_spec(
                path@,
                match stdin {
                    Some(s) => Some(s@),
                    None => None,
                },
                style,
            ) == Some(Ok::<Seq<(Seq<char>, Seq<char>)>, SourceErrorView>(input_views(inputs@))),
            Some(Err(e)) => source_inputs_without_files_spec(
                path@,
                match stdin {
                    Some(s) => Some(s@),
                    None => None,
                },
                style,
            ) == Some(Err::<Seq<(Seq<char>, Seq<char>)>, SourceErrorView>(source_error_view(e))),
        },
{
    let windows = match style {
        PathStyle::Windows => true,
        PathStyle::Unix => false,
    };
    if windows && is_windows_null_config_path(path) {
        let mut inputs: Vec<SourceInput> = Vec::new();
        inputs.push(SourceInput { current_file: String::from_str(path), contents: String::new() });
        proof {
            assert(input_views(inputs@) =~= seq![(path@, Seq::<char>::empty())]);
        }
        return Some(Ok(inputs));
    }
    if crate::text::str_eq(path, "-") {
        match stdin {
            None => {
                return Some(
                    Err(SourceError::Server(String::from_str("source-file - requires client stdin"))),
                );
            },
            Some(text) => {
                let contents = strip_utf8_bom(String::from_str(text));
                let mut inputs: Vec<SourceInput> = Vec::new();
                inputs.push(SourceInput { current_file: String::from_str("-"), contents });
                proof {
                    assert(input_views(inputs@) =~= seq![("-"@, without_bom(text@))]);
                }
                return Some(Ok(inputs));
            },
        }
    }
    None
}

/// How the reads of the matched files turn into inputs: each file that was
/// read gives its (shown) path and its text without a byte order mark; a file
/// that is missing is skipped when `quiet`; any unreadable file is skipped
/// under the best-effort policy; otherwise the first unreadable file is the
/// error `"<path>: <message>"`.
pub open spec fn collect_inputs_spec(
    reads: Seq<(Seq<char>, Result<Seq<char>, (ReadFailureKind, Seq<char>)>)>,
    quiet: bool,
    policy: SourceReadPolicy,
    style: PathStyle,
) -> Result<Seq<(Seq<char>, Seq<char>)>, SourceErrorView>
    decreases reads.len(),
{
    if reads.len() == 0 {
        Ok(Seq::empty())
    } else {
        let (path, outcome) = reads[0];
        let rest = collect_inputs_spec(reads.drop_first(), quiet, policy, style);
        match outcome {
            Ok(text) => match rest {
                Ok(inputs) => Ok(seq![(display_path(path, style), without_bom(text))] + inputs),
                Err(e) => Err(e),
            },
            Err((kind, message)) => if (quiet && kind == ReadFailureKind::NotFound) || policy
                == SourceReadPolicy::BestEffort {
                rest
            } else {
                Err(SourceErrorView::Server(display_path(path, style) + ": "@ + message))
            },
        }
    }
}

/// The abstract value of one matched file and its read.
pub open spec fn entry_view(entry: SourceEntryRead) -> (
    Seq<char>,
    Result<Seq<char>, (ReadFailureKind, Seq<char>)>,
) {
    (
        entry.path@,
        match entry.contents {
            Ok(text) => Ok(text@),
            Err(f) => Err((f.kind, f.message@)),
        },
    )
}

/// The outcome of a `source-file` path whose glob matched `entries`: with no
/// match, nothing when `quiet`, else the message `"<path>: No such file or
/// directory"`; otherwise the inputs of the files that were read.
pub open spec fn source_inputs_from_entries_spec(
    path: Seq<char>,
    quiet: bool,
    policy: SourceReadPolicy,
    style: PathStyle,
    entries: Seq<SourceEntryRead>,
) -> Result<Seq<(Seq<char>, Seq<char>)>, SourceErrorView> {
    if entries.len() == 0 {
        if quiet {
            Ok(Seq::empty())
        } else {
            Err(SourceErrorView::Message(path + ": No such file or directory"@))
        }
    } else {
        collect_inputs_spec(
            entries.map_values(|e: SourceEntryRead| entry_view(e)),
            quiet,
            policy,
            style,
        )
    }
}

/// Turns the files that a `source-file` glob matched, and their reads, into
/// the inputs to parse.
pub fn source_inputs_from_entries(
    path: &str,
    quiet: bool,
    read_policy: SourceReadPolicy,
    style: PathStyle,
    entries: Vec<SourceEntryRead>,
) -> (r: Result<Vec<SourceInput>, SourceError>)
    ensures
        match r {
            Ok(inputs) => source_inputs_from_entries_spec(path@, quiet, read_policy, style, entries@)
                == Ok::<Seq<(Seq<char>, Seq<char>)>, SourceErrorView>(input_views(inputs@)),
            Err(e) => source_inputs_from_entries_spec(path@, quiet, read_policy, style, entries@)
                == Err::<Seq<(Seq<char>, Seq<char>)>, SourceErrorView>(source_error_view(e)),
        },
{
    if entries.len() == 0 {
        if quiet {
            let inputs: Vec<SourceInput> = Vec::new();
            proof {
                assert(input_views(inputs@) =~= Seq::<(Seq<char>, Seq<char>)>::empty());
            }
            return Ok(inputs);
        }
        let mut message = String::from_str(path);
        message.append(": No such file or directory");
        return Err(SourceError::Message(message));
    }
    let ghost all = entries@.map_values(|e: SourceEntryRead| entry_view(e));
    let ghost total = all.len() as int;
    let mut inputs: Vec<SourceInput> = Vec::new();
    let mut remaining = entries;
    let mut done: usize = 0;
    let count = remaining.len();
    proof {
        assert(remaining@.map_values(|e: SourceEntryRead| entry_view(e)) =~= all.subrange(0, total));
        assert(input_views(inputs@) =~= Seq::<(Seq<char>, Seq<char>)>::empty());
        assert(all.subrange(0, total) =~= all);
    }
    while remaining.len() > 0
        invariant
            total == all.len(),
            total == count,
            done + remaining@.len() == total,
            remaining@.map_values(|e: SourceEntryRead| entry_view(e)) == all.subrange(
                done as int,
                total,
            ),
            collect_inputs_spec(all, quiet, read_policy, style) == match collect_inputs_spec(
                all.subrange(done as int, total),
                quiet,
                read_policy,
                style,
            ) {
                Ok(v) => Ok(input_views(inputs@) + v),
                Err(e) => Err(e),
            },
            all.len() > 0,
            source_inputs_from_entries_spec(path@, quiet, read_policy, style, entries@)
                == collect_inputs_spec(all, quiet, read_policy, style),
        decreases remaining.len(),
    {
        let ghost before = remaining@;
        let ghost suffix = all.subrange(done as int, total);
        let entry = remaining.remove(0);
        proof {
            assert(suffix[0] == entry_view(entry)) by {
                assert(before.map_values(|e: SourceEntryRead| entry_view(e))[0] == entry_view(before[0]));
            }
            assert(suffix.drop_first() =~= all.subrange(done + 1, total));
            assert(remaining@.map_values(|e: SourceEntryRead| entry_view(e)) =~= all.subrange(
                done + 1,
                total,
            ));
        }
        match entry.contents {
            Ok(text) => {
                let current_file = source_entry_display_path(entry.path.as_str(), style);
                let contents = strip_utf8_bom(text);
                let ghost before_inputs = inputs@;
                inputs.push(SourceInput { current_file, contents });
                proof {
                    assert(input_views(inputs@) =~= input_views(before_inputs).push(
                        (current_file@, contents@),
                    ));
                    match collect_inputs_spec(all.subrange(done + 1, total), quiet, read_policy, style) {
                        Ok(v) => {
                            assert(input_views(inputs@) + v =~= input_views(before_inputs) + (seq![
                                (current_file@, contents@),
                            ] + v));
                        },
                        Err(_) => {},
                    }
                }
            },
            Err(failure) => {
                let skip = match failure.kind {
                    ReadFailureKind::NotFound => quiet,
                    _ => false,
                } || match read_policy {
                    SourceReadPolicy::BestEffort => true,
                    SourceReadPolicy::Strict => false,
                };
                if !skip {
                    let mut message = source_entry_display_path(entry.path.as_str(), style);
                    message.append(": ");
                    message.append(failure.message.as_str());
                    return Err(SourceError::Server(message));
                }
            },
        }
        done = done + 1;
    }
    proof {
        assert(all.subrange(done as int, total) =~= Seq::<
            (Seq<char>, Result<Seq<char>, (ReadFailureKind, Seq<char>)>),
        >::empty());
        assert(input_views(inputs@) + Seq::<(Seq<char>, Seq<char>)>::empty() =~= input_views(
            inputs@,
        ));
    }
    Ok(inputs)
}

} // verus!
