use vstd::prelude::*;

use crate::text::{chars_of, string_push};
use crate::tmux_compat::quote_body;

verus! {

/// A path in single quotes for a POSIX shell, each `'` written as `'\''`.
pub open spec fn single_quoted(path: Seq<char>) -> Seq<char> {
    seq!['\''] + quote_body(path) + seq!['\'']
}

/// Quotes a path for a POSIX shell command line.
pub fn shell_quote(path: &str) -> (r: String)
    ensures
        r@ == single_quoted(path@),
{
    let v = chars_of(path);
    let mut out = String::new();
    string_push(&mut out, '\'');
    let mut i: usize = 0;
    while i < v.len()
        invariant
            i <= v@.len(),
            out@ == seq!['\''] + quote_body(v@.take(i as int)),
        decreases v.len() - i,
    {
        let c = v[i];
        proof {
            assert(v@.take(i + 1).drop_last() =~= v@.take(i as int));
        }
        if c == '\'' {
            string_push(&mut out, '\'');
            string_push(&mut out, '\\');
            string_push(&mut out, '\'');
            string_push(&mut out, '\'');
        } else {
            string_push(&mut out, c);
        }
        i = i + 1;
        proof {
            assert(out@ =~= seq!['\''] + quote_body(v@.take(i as int)));
        }
    }
    string_push(&mut out, '\'');
    proof {
        assert(v@.take(v@.len() as int) =~= v@);
        assert(out@ =~= single_quoted(path@));
    }
    out
}

/// Quotes a path for `sh` (the same quoting as `shell_quote`).
pub fn sh_single_quote(path: &str) -> (r: String)
    ensures
        r@ == single_quoted(path@),
{
    shell_quote(path)
}

/// A path in double quotes for `cmd.exe`.
pub fn cmd_quote(path: &str) -> (r: String)
    ensures
        r@ == seq!['"'] + path@ + seq!['"'],
{
    let mut out = String::new();
    string_push(&mut out, '"');
    out.append(path);
    string_push(&mut out, '"');
    proof {
        assert(out@ =~= seq!['"'] + path@ + seq!['"']);
    }
    out
}

/// The shell command that succeeds and does nothing.
pub fn shell_success_command() -> (r: String)
    ensures
        r@ == "true"@,
{
    String::from_str("true")
}

/// The shell command that prints the variable `name`, or `default` when it is
/// unset: `printf %s "${name-default}"`.
pub fn shell_env_or_default_command(name: &str, default: &str) -> (r: String)
    ensures
        r@ == "printf %s \"${"@ + name@ + "-"@ + default@ + "}\""@,
{
    let mut out = String::from_str("printf %s \"${");
    out.append(name);
    out.append("-");
    out.append(default);
    out.append("}\"");
    out
}

/// The upper-case hexadecimal digit of `v`.
pub open spec fn hex_digit(v: u8) -> char {
    if v < 10 {
        (('0' as u8) + v) as char
    } else {
        (('A' as u8) + v - 10) as char
    }
}

/// A byte as two upper-case hexadecimal digits (`{:02X}`).
pub open spec fn hex_byte(b: u8) -> Seq<char> {
    seq![hex_digit(b / 16), hex_digit(b % 16)]
}

/// The bytes as hexadecimal pairs joined with `-`.
pub open spec fn hex_dump_spec(bytes: Seq<u8>) -> Seq<char>
    decreases bytes.len(),
{
    if bytes.len() == 0 {
        Seq::empty()
    } else if bytes.len() == 1 {
        hex_byte(bytes[0])
    } else {
        hex_dump_spec(bytes.drop_last()) + seq!['-'] + hex_byte(bytes.last())
    }
}

fn hex_digit_char(v: u8) -> (c: char)
    requires
        v < 16,
    ensures
        c == hex_digit(v),
{
    if v < 10 {
        (('0' as u8) + v) as char
    } else {
        (('A' as u8) + v - 10) as char
    }
}

/// Writes bytes as upper-case hexadecimal pairs joined with `-`.
pub fn hex_dump(bytes: &[u8]) -> (r: String)
    ensures
        r@ == hex_dump_spec(bytes@),
{
    let mut out = String::new();
    let mut i: usize = 0;
    while i < bytes.len()
        invariant
            i <= bytes@.len(),
            out@ == hex_dump_spec(bytes@.take(i as int)),
        decreases bytes.len() - i,
    {
        let b = bytes[i];
        proof {
            assert(bytes@.take(i + 1).drop_last() =~= bytes@.take(i as int));
            assert(bytes@.take(i + 1).last() == b);
        }
        if i > 0 {
            string_push(&mut out, '-');
        }
        string_push(&mut out, hex_digit_char(b / 16));
        string_push(&mut out, hex_digit_char(b % 16));
        i = i + 1;
        proof {
            if i == 1 {
                assert(out@ =~= hex_byte(b));
            } else {
                assert(out@ =~= hex_dump_spec(bytes@.take(i - 1)) + seq!['-'] + hex_byte(b));
            }
        }
    }
    proof {
        assert(bytes@.take(bytes@.len() as int) =~= bytes@);
    }
    out
}

} // verus!
