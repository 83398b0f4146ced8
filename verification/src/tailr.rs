//! The offset-resolution and bounded-extraction engine of `tail`.
//!
//! An offset token is parsed into a [`TakeValue`], the size of an input is
//! measured into an [`Extent`], the two are resolved into a zero-based start
//! position, and the suffix of the input from that position is selected.

pub mod bytes;
pub mod driver;
pub mod extent;
pub mod laws;
pub mod lines;
pub mod offset;

pub use bytes::{bytes_from, print_bytes, selected_bytes};
pub use driver::{run, Config, Output};
pub use extent::{count_lines_bytes, Extent};
pub use lines::{print_lines, selected_lines};
pub use offset::{get_start_index, parse_take_value, start_index, TakeValue};
