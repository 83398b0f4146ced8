//! Selecting the lines of an input from a start position on.

use crate::lines::{find_line_start, lines_from};
use crate::tailr::offset::{get_start_index, start_index, TakeValue};
use vstd::prelude::*;
use vstd::slice::slice_subrange;

verus! {

/// What line mode emits for an offset specifier when the input is taken to
/// have `total` lines.
pub open spec fn selected_lines(data: Seq<u8>, take_val: TakeValue, total: nat) -> Seq<u8> {
    match start_index(take_val, total) {
        Some(k) => lines_from(data, k),
        None => Seq::empty(),
    }
}

/// Selects what line mode emits: nothing when the specifier resolves to no
/// start position, else every line from the start position on, unchanged.
/// The lines that are passed over are only counted, never interpreted.
pub fn print_lines<'a>(data: &'a [u8], output_lines: &TakeValue, total_lines: u64) -> (out:
    &'a [u8])
    ensures
        out@ == selected_lines(data@, *output_lines, total_lines as nat),
{
    match get_start_index(output_lines, total_lines) {
        Some(start) => {
            let p = find_line_start(data, start);
            slice_subrange(data, p, data.len())
        },
        None => slice_subrange(data, 0, 0),
    }
}

} // verus!
