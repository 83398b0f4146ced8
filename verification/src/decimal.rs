//! Decimal integers written as text: what a string of digits denotes, and
//! parsers that accept exactly the strings Rust's integer types accept.

use vstd::prelude::*;
use vstd::string::*;

verus! {

/// An ASCII decimal digit.
pub open spec fn is_digit(c: char) -> bool {
    '0' <= c <= '9'
}

/// The number a digit stands for.
pub open spec fn digit_value(c: char) -> nat {
    (c as int - '0' as int) as nat
}

/// Every character is an ASCII decimal digit.
pub open spec fn all_digits(s: Seq<char>) -> bool {
    forall|i: int| 0 <= i < s.len() ==> is_digit(#[trigger] s[i])
}

/// The number that a string of digits denotes in base ten; leading zeros
/// are allowed and the empty string denotes zero.
pub open spec fn digits_value(s: Seq<char>) -> nat
    decreases s.len(),
{
    if s.len() == 0 {
        0
    } else {
        digits_value(s.drop_last()) * 10 + digit_value(s.last())
    }
}

/// The number of characters taken by a leading `+` or `-`.
pub open spec fn sign_len(s: Seq<char>) -> int {
    if s.len() > 0 && (s[0] == '+' || s[0] == '-') {
        1
    } else {
        0
    }
}

/// The integer that `s` denotes: an optional sign followed by at least one
/// digit and nothing else. `None` for every other string.
pub open spec fn signed_decimal(s: Seq<char>) -> Option<int> {
    let digits = s.skip(sign_len(s));
    if digits.len() == 0 || !all_digits(digits) {
        None
    } else if s[0] == '-' {
        Some(-(digits_value(digits) as int))
    } else {
        Some(digits_value(digits) as int)
    }
}

/// The value of `s` as an `i64`: `None` when `s` is no signed decimal or
/// its value does not fit.
pub open spec fn decimal_i64(s: Seq<char>) -> Option<i64> {
    match signed_decimal(s) {
        Some(v) => if i64::MIN <= v <= i64::MAX {
            Some(v as i64)
        } else {
            None
        },
        None => None,
    }
}

/// The value of `s` as an unsigned integer no larger than `limit`: a
/// leading `+` is accepted, a leading `-` is not, not even before zero.
pub open spec fn decimal_unsigned(s: Seq<char>, limit: nat) -> Option<nat> {
    if s.len() > 0 && s[0] == '-' {
        None
    } else {
        match signed_decimal(s) {
            Some(v) => if v <= limit {
                Some(v as nat)
            } else {
                None
            },
            None => None,
        }
    }
}

/// The value of a string that must consist of digits only, if it is
/// non-empty and does not exceed `limit`.
pub open spec fn digits_within(digits: Seq<char>, limit: nat) -> Option<nat> {
    if digits.len() > 0 && all_digits(digits) && digits_value(digits) <= limit {
        Some(digits_value(digits))
    } else {
        None
    }
}

/// A prefix of a digit string never denotes more than the whole string.
pub proof fn lemma_prefix_value_le(s: Seq<char>, k: int)
    requires
        0 <= k <= s.len(),
    ensures
        digits_value(s.take(k)) <= digits_value(s),
    decreases s.len(),
{
    if k == s.len() {
        assert(s.take(k) =~= s);
    } else {
        assert(s.drop_last().take(k) =~= s.take(k));
        lemma_prefix_value_le(s.drop_last(), k);
    }
}

/// A string that holds a character outside ASCII denotes no integer.
pub proof fn lemma_non_ascii_is_no_decimal(s: Seq<char>)
    requires
        !vstd::utf8::is_ascii_chars(s),
    ensures
        signed_decimal(s) is None,
{
    let i = choose|i: int| 0 <= i < s.len() && !('\0' <= #[trigger] s[i] <= '\u{7f}');
    let digits = s.skip(sign_len(s));
    if digits.len() > 0 {
        assert(i >= sign_len(s));
        assert(digits[i - sign_len(s)] == s[i]);
        assert(!is_digit(digits[i - sign_len(s)]));
    }
}

/// Reads the digits of `bytes` from `start` to the end.
fn parse_digits(bytes: &[u8], start: usize, limit: u64, Ghost(chars): Ghost<Seq<char>>) -> (r:
    Option<u64>)
    requires
        start <= bytes.len(),
        chars.len() == bytes.len(),
        forall|i: int| 0 <= i < chars.len() ==> #[trigger] chars[i] as int == bytes[i] as int,
    ensures
        r matches Some(v) ==> digits_within(chars.skip(start as int), limit as nat) == Some(
            v as nat,
        ),
        r is None ==> digits_within(chars.skip(start as int), limit as nat) is None,
{
    let ghost digits = chars.skip(start as int);
    let mut i: usize = start;
    let mut acc: u64 = 0;
    while i < bytes.len()
        invariant
            start <= i <= bytes.len(),
            chars.len() == bytes.len(),
            digits == chars.skip(start as int),
            forall|j: int| 0 <= j < chars.len() ==> #[trigger] chars[j] as int == bytes[j] as int,
            all_digits(digits.take(i - start)),
            acc == digits_value(digits.take(i - start)),
            acc <= limit,
        decreases bytes.len() - i,
    {
        let b: u8 = bytes[i];
        assert(digits[i - start] == chars[i as int]);
        if b < 48 || b > 57 {
            assert(!is_digit(digits[i - start]));
            return None;
        }
        let d: u64 = (b - 48) as u64;
        let wide: u128 = acc as u128 * 10 + d as u128;
        proof {
            let next = digits.take(i - start + 1);
            assert(next.drop_last() =~= digits.take(i - start));
            assert(next.last() == digits[i - start]);
            assert(digits_value(next) == wide);
            assert(all_digits(next)) by {
                assert forall|j: int| 0 <= j < next.len() implies is_digit(#[trigger] next[j]) by {
                    if j < i - start {
                        assert(digits.take(i - start)[j] == next[j]);
                    }
                }
            }
            lemma_prefix_value_le(digits, i - start + 1);
        }
        if wide > limit as u128 {
            return None;
        }
        acc = wide as u64;
        i += 1;
    }
    assert(digits.take(i - start) =~= digits);
    if i == start {
        None
    } else {
        Some(acc)
    }
}

/// Parses a signed decimal that fits an `i64`, as `str::parse::<i64>` does.
pub fn parse_i64(s: &str) -> (r: Option<i64>)
    ensures
        r == decimal_i64(s@),
{
    if !s.is_ascii() {
        proof {
            lemma_non_ascii_is_no_decimal(s@);
        }
        return None;
    }
    let bytes = s.as_bytes();
    proof {
        is_ascii_spec_bytes(s);
    }
    if bytes.len() == 0 {
        return None;
    }
    if bytes[0] == 45 {
        match parse_digits(bytes, 1, 0x8000_0000_0000_0000u64, Ghost(s@)) {
            Some(m) => if m == 0x8000_0000_0000_0000u64 {
                Some(i64::MIN)
            } else {
                Some(-(m as i64))
            },
            None => None,
        }
    } else {
        let start: usize = if bytes[0] == 43 {
            1
        } else {
            0
        };
        assert(s@.skip(0) =~= s@);
        match parse_digits(bytes, start, 0x7fff_ffff_ffff_ffffu64, Ghost(s@)) {
            Some(m) => Some(m as i64),
            None => None,
        }
    }
}

/// Parses an unsigned decimal no larger than `limit`, as `str::parse` does
/// for an unsigned integer type whose largest value is `limit`.
pub fn parse_unsigned(s: &str, limit: u64) -> (r: Option<u64>)
    ensures
        r matches Some(v) ==> decimal_unsigned(s@, limit as nat) == Some(v as nat),
        r is None ==> decimal_unsigned(s@, limit as nat) is None,
{
    if !s.is_ascii() {
        proof {
            lemma_non_ascii_is_no_decimal(s@);
        }
        return None;
    }
    let bytes = s.as_bytes();
    proof {
        is_ascii_spec_bytes(s);
    }
    if bytes.len() == 0 {
        return None;
    }
    if bytes[0] == 45 {
        return None;
    }
    let start: usize = if bytes[0] == 43 {
        1
    } else {
        0
    };
    assert(s@.skip(0) =~= s@);
    parse_digits(bytes, start, limit, Ghost(s@))
}

} // verus!
