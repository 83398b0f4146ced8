//! Offset specifiers and their resolution against a measured total.

use crate::decimal::{decimal_i64, lemma_non_ascii_is_no_decimal, parse_i64};
use vstd::prelude::*;
use vstd::string::*;

verus! {

/// Where output begins, as the user wrote it.
///
/// `PlusZero` anchors at the very start of the input and is produced only by
/// the token `+0`. `TakeNum(n)` with positive `n` anchors at the `n`-th item
/// counted from one; with negative `n` it asks for the last `|n|` items; with
/// `n == 0` it asks for nothing. `PlusZero` and `TakeNum(0)` are different
/// requests: the first selects a whole non-empty input, the second nothing.
#[derive(Debug, PartialEq, Eq, Clone, Copy, Structural)]
pub enum TakeValue {
    PlusZero,
    TakeNum(i64),
}

/// What an offset token denotes, or `None` for a token that is rejected.
///
/// The token `+0` alone denotes `PlusZero`. Any other token must be a
/// decimal `i64`; written with a leading `+`, or negative, it keeps its
/// sign, and a bare non-negative number `N` means "the last `N`" and is
/// negated.
pub open spec fn parse_take_value(s: Seq<char>) -> Option<TakeValue> {
    if s == seq!['+', '0'] {
        Some(TakeValue::PlusZero)
    } else {
        match decimal_i64(s) {
            Some(num) => if s[0] == '+' || num < 0 {
                Some(TakeValue::TakeNum(num))
            } else {
                Some(TakeValue::TakeNum((-num) as i64))
            },
            None => None,
        }
    }
}

/// The message with which the token `s` is rejected.
pub open spec fn illegal_offset(s: Seq<char>) -> Seq<char> {
    "illegal offset -- "@ + s + ": Invalid argument"@
}

impl TakeValue {
    /// Parses an offset token.
    pub fn from_str(s: &str) -> (r: Result<TakeValue, String>)
        ensures
            parse_take_value(s@) matches Some(v) ==> r == Ok::<TakeValue, String>(v),
            parse_take_value(s@) is None ==> r is Err && r->Err_0@ == illegal_offset(s@),
    {
        let mut plus: bool = false;
        if s.is_ascii() {
            let bytes = s.as_bytes();
            proof {
                is_ascii_spec_bytes(s);
            }
            plus = bytes.len() > 0 && bytes[0] == 43;
            if plus && bytes.len() == 2 && bytes[1] == 48 {
                assert(s@ =~= seq!['+', '0']);
                return Ok(TakeValue::PlusZero);
            }
        } else {
            proof {
                lemma_non_ascii_is_no_decimal(s@);
                let i = choose|i: int| 0 <= i < s@.len() && !('\0' <= #[trigger] s@[i] <= '\u{7f}');
                assert(s@ != seq!['+', '0']);
            }
        }
        match parse_i64(s) {
            Some(num) => if plus || num < 0 {
                Ok(TakeValue::TakeNum(num))
            } else {
                Ok(TakeValue::TakeNum(-num))
            },
            None => {
                let mut message = String::from_str("illegal offset -- ");
                message.append(s);
                message.append(": Invalid argument");
                Err(message)
            },
        }
    }
}

impl std::str::FromStr for TakeValue {
    type Err = String;

    fn from_str(s: &str) -> (r: Result<Self, Self::Err>)
        ensures
            parse_take_value(s@) matches Some(v) ==> r == Ok::<TakeValue, String>(v),
            parse_take_value(s@) is None ==> r is Err && r->Err_0@ == illegal_offset(s@),
    {
        TakeValue::from_str(s)
    }
}

/// The zero-based position at which output begins, or `None` when nothing
/// is to be emitted. `total` counts lines or bytes alike.
pub open spec fn start_index(take_val: TakeValue, total: nat) -> Option<nat> {
    match take_val {
        TakeValue::PlusZero => if total == 0 {
            None
        } else {
            Some(0)
        },
        TakeValue::TakeNum(n) => if n == 0 || total == 0 {
            None
        } else if n > 0 {
            if n > total {
                None
            } else {
                Some((n - 1) as nat)
            }
        } else if -n >= total {
            Some(0)
        } else {
            Some((total + n) as nat)
        },
    }
}

/// Resolves an offset specifier against the size of an input.
pub fn get_start_index(take_val: &TakeValue, total: u64) -> (start: Option<u64>)
    ensures
        start_index(*take_val, total as nat) matches Some(i) ==> start == Some(i as u64) && i < total,
        start_index(*take_val, total as nat) is None ==> start is None,
{
    match take_val {
        TakeValue::PlusZero => if total == 0 {
            None
        } else {
            Some(0)
        },
        TakeValue::TakeNum(n) => {
            let n: i64 = *n;
            if n == 0 || total == 0 {
                None
            } else if n > 0 {
                let first: u64 = n as u64;
                if first > total {
                    None
                } else {
                    Some(first - 1)
                }
            } else {
                let wanted: u64 = if n == i64::MIN {
                    0x8000_0000_0000_0000u64
                } else {
                    (-n) as u64
                };
                if wanted >= total {
                    Some(0)
                } else {
                    Some(total - wanted)
                }
            }
        },
    }
}

} // verus!
