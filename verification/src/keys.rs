use vstd::prelude::*;

use crate::text::chars_of;

verus! {

/// The value of a hexadecimal digit (either case).
pub open spec fn hex_digit_value(c: char) -> Option<nat> {
    let v = c as u32;
    if 0x30 <= v <= 0x39 {
        Some((v - 0x30) as nat)
    } else if 0x61 <= v <= 0x66 {
        Some((v - 0x61 + 10) as nat)
    } else if 0x41 <= v <= 0x46 {
        Some((v - 0x41 + 10) as nat)
    } else {
        None
    }
}

pub open spec fn all_hex_digits(s: Seq<char>) -> bool {
    forall|i: int| 0 <= i < s.len() ==> hex_digit_value(#[trigger] s[i]) is Some
}

/// The value of a string of hexadecimal digits.
pub open spec fn hex_value(s: Seq<char>) -> nat
    decreases s.len(),
{
    if s.len() == 0 {
        0
    } else {
        hex_value(s.drop_last()) * 16 + match hex_digit_value(s.last()) {
            Some(d) => d,
            None => 0,
        }
    }
}

/// `u8::from_str_radix(s, 16)`: an optional `+` and then at least one
/// hexadecimal digit, whose value fits in a byte.
pub open spec fn parse_hex_u8(s: Seq<char>) -> Option<u8> {
    hex_digits_u8(
        if s.len() > 0 && s[0] == '+' {
            s.drop_first()
        } else {
            s
        },
    )
}

/// The byte that a non-empty string of hexadecimal digits stands for.
pub open spec fn hex_digits_u8(digits: Seq<char>) -> Option<u8> {
    if digits.len() > 0 && all_hex_digits(digits) && hex_value(digits) <= 0xff {
        Some(hex_value(digits) as u8)
    } else {
        None
    }
}

/// A key token without its optional `0x` prefix.
pub open spec fn strip_hex_prefix(s: Seq<char>) -> Seq<char> {
    if s.len() >= 2 && s[0] == '0' && s[1] == 'x' {
        s.subrange(2, s.len() as int)
    } else {
        s
    }
}

proof fn lemma_hex_value_prefix(s: Seq<char>, i: int)
    requires
        0 <= i <= s.len(),
    ensures
        hex_value(s.take(i)) <= hex_value(s),
    decreases s.len() - i,
{
    if i < s.len() {
        lemma_hex_value_prefix(s, i + 1);
        assert(s.take(i + 1).drop_last() =~= s.take(i));
    } else {
        assert(s.take(i) =~= s);
    }
}

fn hex_digit(c: char) -> (r: Option<u32>)
    ensures
        match r {
            Some(d) => hex_digit_value(c) == Some(d as nat) && d < 16,
            None => hex_digit_value(c) is None,
        },
{
    let v = c as u32;
    if 0x30 <= v && v <= 0x39 {
        Some(v - 0x30)
    } else if 0x61 <= v && v <= 0x66 {
        Some(v - 0x61 + 10)
    } else if 0x41 <= v && v <= 0x46 {
        Some(v - 0x41 + 10)
    } else {
        None
    }
}

/// Reads a key given as a hexadecimal byte value, with or without a `0x`
/// prefix.
pub fn resolve_hex_key(token: &str) -> (r: Option<u8>)
    ensures
        r == parse_hex_u8(strip_hex_prefix(token@)),
{
    let all = chars_of(token);
    let mut start: usize = 0;
    if all.len() >= 2 && all[0] == '0' && all[1] == 'x' {
        start = 2;
    }
    let ghost s = strip_hex_prefix(token@);
    proof {
        assert(s =~= all@.subrange(start as int, all@.len() as int));
    }
    if start < all.len() && all[start] == '+' {
        start = start + 1;
    }
    let ghost digits = all@.subrange(start as int, all@.len() as int);
    proof {
        if s.len() > 0 && s[0] == '+' {
            assert(digits =~= s.drop_first());
        } else {
            assert(digits =~= s);
        }
    }
    if start >= all.len() {
        return None;
    }
    let mut value: u32 = 0;
    let mut i = start;
    proof {
        assert(all@.subrange(start as int, start as int) =~= Seq::<char>::empty());
    }
    while i < all.len()
        invariant
            start <= i <= all@.len(),
            digits == all@.subrange(start as int, all@.len() as int),
            parse_hex_u8(strip_hex_prefix(token@)) == hex_digits_u8(digits),
            digits.len() > 0,
            value == hex_value(all@.subrange(start as int, i as int)),
            value <= 0xff,
            forall|k: int| start <= k < i ==> hex_digit_value(#[trigger] all@[k]) is Some,
        decreases all.len() - i,
    {
        proof {
            assert(digits.take(i - start) =~= all@.subrange(start as int, i as int));
            assert(all@.subrange(start as int, i + 1).drop_last() =~= all@.subrange(
                start as int,
                i as int,
            ));
        }
        let d = match hex_digit(all[i]) {
            Some(d) => d,
            None => {
                proof {
                    assert(digits[i - start] == all@[i as int]);
                }
                return None;
            },
        };
        value = value * 16 + d;
        i = i + 1;
        if value > 0xff {
            proof {
                lemma_hex_value_prefix(digits, i - start);
                assert(digits.take(i - start) =~= all@.subrange(start as int, i as int));
            }
            return None;
        }
    }
    proof {
        assert(all_hex_digits(digits)) by {
            assert forall|k: int| 0 <= k < digits.len() implies hex_digit_value(
                #[trigger] digits[k],
            ) is Some by {
                assert(digits[k] == all@[start + k]);
            }
        }
    }
    Some(value as u8)
}

} // verus!
