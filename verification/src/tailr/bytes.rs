//! Selecting the bytes of an input from a start position on, and turning
//! them into text for display.

use crate::tailr::offset::{get_start_index, start_index, TakeValue};
use crate::text::{show_bytes, shown_text};
use vstd::prelude::*;
use vstd::slice::slice_subrange;
use vstd::utf8::{encode_utf8, valid_utf8};

verus! {

/// The bytes of `data` from offset `k` on; none when `k` lies at or past
/// the end.
pub open spec fn bytes_from(data: Seq<u8>, k: nat) -> Seq<u8> {
    if k >= data.len() {
        Seq::empty()
    } else {
        data.skip(k as int)
    }
}

/// The bytes that byte mode selects for an offset specifier when the input
/// is taken to have `total` bytes.
pub open spec fn selected_bytes(data: Seq<u8>, take_val: TakeValue, total: nat) -> Seq<u8> {
    match start_index(take_val, total) {
        Some(k) => bytes_from(data, k),
        None => Seq::empty(),
    }
}

/// Selects what byte mode emits and decodes it for display. The start
/// position is used as an offset directly; no byte before it is looked at.
/// Malformed sequences, such as a character cut in two by the start
/// position, never make the call fail. Well-formed UTF-8 comes out byte
/// for byte.
pub fn print_bytes(data: &[u8], output_bytes: &TakeValue, total_bytes: u64) -> (out: String)
    ensures
        out@ == shown_text(selected_bytes(data@, *output_bytes, total_bytes as nat)),
        valid_utf8(selected_bytes(data@, *output_bytes, total_bytes as nat)) ==> encode_utf8(out@)
            == selected_bytes(data@, *output_bytes, total_bytes as nat),
{
    match get_start_index(output_bytes, total_bytes) {
        Some(start) => {
            if start >= data.len() as u64 {
                String::new()
            } else {
                show_bytes(slice_subrange(data, start as usize, data.len()))
            }
        },
        None => String::new(),
    }
}

} // verus!
