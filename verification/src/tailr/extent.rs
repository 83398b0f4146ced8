//! The size of an input, in lines and in bytes.

use crate::lines::{count_newlines, newline_count};
use vstd::prelude::*;

verus! {

/// The measured size of one input.
///
/// `total_lines` is the number of line terminators. Bytes that follow
/// the last terminator count as bytes, not as a line.
#[derive(Debug, PartialEq, Eq, Clone, Copy, Structural)]
pub struct Extent {
    pub total_lines: u64,
    pub total_bytes: u64,
}

/// Measures an input in one forward pass: one line for each terminator
/// found, and every byte, terminators included. Binary-safe: no byte but
/// the line terminator has a meaning.
pub fn count_lines_bytes(data: &[u8]) -> (extent: Extent)
    ensures
        extent.total_lines == newline_count(data@),
        extent.total_bytes == data@.len(),
{
    let lines = count_newlines(data);
    Extent { total_lines: lines as u64, total_bytes: data.len() as u64 }
}

} // verus!
