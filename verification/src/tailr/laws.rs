//! What holds of the engine for every input: the edge cases of offset
//! resolution, and what a resolved selection looks like.

use crate::input::{header_text, Input};
use crate::lines::{
    lemma_line_start_at_end, lemma_line_start_bounds, lemma_lines_from_count,
    lemma_lines_from_newlines, lemma_newline_count_le_len, line_count, line_start, lines_from,
    newline_count,
};
use crate::tailr::bytes::selected_bytes;
use crate::tailr::driver::{any_readable, body_bytes, shows_headers, stdout_of, Config};
use crate::tailr::lines::selected_lines;
use crate::tailr::offset::{parse_take_value, start_index, TakeValue};
use crate::text::shown_text;
use vstd::prelude::*;
use vstd::utf8::encode_utf8;

verus! {

/// `+0` selects nothing from an empty input and starts at the very
/// beginning of any other.
pub proof fn lemma_plus_zero_starts_at_zero(total: nat)
    ensures
        start_index(TakeValue::PlusZero, 0) is None,
        total > 0 ==> start_index(TakeValue::PlusZero, total) == Some(0nat),
{
}

/// A count of zero selects nothing, whatever the size of the input.
pub proof fn lemma_zero_count_selects_nothing(total: nat)
    ensures
        start_index(TakeValue::TakeNum(0), total) is None,
{
}

/// Nothing can be selected from an empty input, whatever the count.
pub proof fn lemma_empty_input_selects_nothing(n: i64)
    ensures
        start_index(TakeValue::TakeNum(n), 0) is None,
{
}

/// `+0` and a count of zero differ on every non-empty input: the first
/// selects all of it, the second nothing.
pub proof fn lemma_plus_zero_is_not_zero_count(total: nat)
    requires
        total > 0,
    ensures
        start_index(TakeValue::PlusZero, total) != start_index(TakeValue::TakeNum(0), total),
{
}

/// A start position always lies inside the input.
pub proof fn lemma_start_inside_input(take_val: TakeValue, total: nat)
    ensures
        start_index(take_val, total) matches Some(i) ==> i < total,
{
}

/// A positive count `n` anchors at item `n`, counted from one: the start
/// position is `n - 1` when the input has that many items, and nothing is
/// selected when it has fewer.
pub proof fn lemma_anchored_count(n: i64, total: nat)
    requires
        n > 0,
    ensures
        n <= total ==> start_index(TakeValue::TakeNum(n), total) == Some((n - 1) as nat),
        n > total ==> start_index(TakeValue::TakeNum(n), total) is None,
{
}

/// A negative count `-m` leaves exactly the last `m` items of a non-empty
/// input, or all of them when it has fewer than `m`.
pub proof fn lemma_trailing_count(n: i64, total: nat)
    requires
        n < 0,
        total > 0,
    ensures
        start_index(TakeValue::TakeNum(n), total) matches Some(i) && total - i == if -n <= total {
            -n
        } else {
            total as int
        },
{
}

/// A bare number means "the last `N`": whenever the token `N` is accepted,
/// it denotes what the token `-N` denotes.
pub proof fn lemma_bare_number_means_last(s: Seq<char>)
    requires
        s.len() > 0,
        s[0] != '+',
        s[0] != '-',
    ensures
        parse_take_value(s) is Some ==> parse_take_value(seq!['-'] + s) == parse_take_value(s),
{
    let signed = seq!['-'] + s;
    assert(signed.skip(1) =~= s);
    assert(s.skip(0) =~= s);
}

/// `+0` selects the whole of an input, in line mode when it measures at
/// least one line and in byte mode when it holds at least one byte.
pub proof fn lemma_plus_zero_selects_everything(data: Seq<u8>)
    ensures
        newline_count(data) > 0 ==> selected_lines(
            data,
            TakeValue::PlusZero,
            newline_count(data),
        ) == data,
        data.len() > 0 ==> selected_bytes(data, TakeValue::PlusZero, data.len()) == data,
{
    assert(data.skip(0) =~= data);
}

/// An input without a line terminator measures no line, so line mode
/// selects nothing from it, whatever the offset specifier.
pub proof fn lemma_no_terminator_selects_nothing(data: Seq<u8>, take_val: TakeValue)
    requires
        newline_count(data) == 0,
    ensures
        selected_lines(data, take_val, newline_count(data)) == Seq::<u8>::empty(),
{
}

/// Nothing is selected from an empty input, in either mode and for every
/// offset specifier.
pub proof fn lemma_empty_input_emits_nothing(take_val: TakeValue)
    ensures
        selected_lines(Seq::<u8>::empty(), take_val, newline_count(Seq::<u8>::empty()))
            == Seq::<u8>::empty(),
        selected_bytes(Seq::<u8>::empty(), take_val, 0) == Seq::<u8>::empty(),
        shown_text(selected_bytes(Seq::<u8>::empty(), take_val, 0)) == Seq::<char>::empty(),
{
}

/// Line mode always emits a suffix of the input: the bytes from some
/// offset to the end, unchanged.
pub proof fn lemma_selected_lines_is_suffix(data: Seq<u8>, take_val: TakeValue, total: nat)
    ensures
        exists|p: int|
            0 <= p <= data.len() && selected_lines(data, take_val, total) == #[trigger] data.skip(
                p,
            ),
{
    match start_index(take_val, total) {
        Some(k) => {
            lemma_line_start_bounds(data, k);
            assert(selected_lines(data, take_val, total) == data.skip(line_start(data, k) as int));
        },
        None => {
            assert(data.skip(data.len() as int) =~= Seq::<u8>::empty());
        },
    }
}

/// With the measured line count as total, a negative count `-m` emits
/// the input from the start of the last `m` terminated lines on, or every
/// line when there are fewer: what is emitted measures `m` lines, or as
/// many as the input.
pub proof fn lemma_last_lines(data: Seq<u8>, n: i64)
    requires
        n < 0,
    ensures
        newline_count(selected_lines(data, TakeValue::TakeNum(n), newline_count(data))) == if -n
            <= newline_count(data) {
            -n
        } else {
            newline_count(data) as int
        },
{
    let total = newline_count(data);
    if total > 0 {
        let k = start_index(TakeValue::TakeNum(n), total)->0;
        lemma_lines_from_newlines(data, k);
    }
}

/// With the measured line count as total, a positive count `n` emits the
/// lines from line `n` on, counted from one: all but the first `n - 1`.
pub proof fn lemma_lines_from_anchor(data: Seq<u8>, n: i64)
    requires
        0 < n <= newline_count(data),
    ensures
        newline_count(selected_lines(data, TakeValue::TakeNum(n), newline_count(data)))
            == newline_count(data) - (n - 1),
{
    lemma_lines_from_newlines(data, (n - 1) as nat);
}

/// With the measured size as total, a negative count `-m` emits exactly
/// the last `m` bytes, or every byte when there are fewer.
pub proof fn lemma_last_bytes(data: Seq<u8>, n: i64)
    requires
        n < 0,
    ensures
        selected_bytes(data, TakeValue::TakeNum(n), data.len()) == if -n <= data.len() {
            data.skip(data.len() + n)
        } else {
            data
        },
{
    if -n >= data.len() {
        if data.len() > 0 {
            assert(data.skip(0) =~= data);
        } else {
            assert(data =~= Seq::<u8>::empty());
        }
    }
}

/// Skipping more lines than an input has leaves nothing.
pub proof fn lemma_lines_past_end(data: Seq<u8>, k: nat)
    requires
        k >= line_count(data),
    ensures
        lines_from(data, k) == Seq::<u8>::empty(),
{
    let total = line_count(data);
    lemma_lines_from_count(data, total);
    lemma_line_start_bounds(data, total);
    lemma_newline_count_le_len(lines_from(data, total));
    lemma_line_start_at_end(data, total, k);
    assert(data.skip(data.len() as int) =~= Seq::<u8>::empty());
}

/// The output of byte mode is determined by the input, the offset
/// specifier and the total alone: two runs over the same unmodified input
/// with the same resolved start show the same text.
pub proof fn lemma_byte_mode_is_repeatable(
    data: Seq<u8>,
    take_val: TakeValue,
    total: nat,
    first: Seq<char>,
    second: Seq<char>,
)
    requires
        first == shown_text(selected_bytes(data, take_val, total)),
        second == shown_text(selected_bytes(data, take_val, total)),
    ensures
        first == second,
{
}

/// Nothing is written to the output stream as long as no input is
/// readable.
pub proof fn lemma_nothing_written_before_first_readable(
    config: &Config,
    inputs: Seq<Input>,
    n: nat,
)
    requires
        !any_readable(inputs, n),
    ensures
        stdout_of(config, inputs, n) == Seq::<u8>::empty(),
    decreases n,
{
    if n > 0 {
        lemma_nothing_written_before_first_readable(config, inputs, (n - 1) as nat);
    }
}

/// The first header that is written has no empty line before it, also
/// when the inputs before it could not be opened: the output stream then
/// begins with that header.
pub proof fn lemma_first_header_is_not_separated(config: &Config, inputs: Seq<Input>, n: nat)
    requires
        shows_headers(config),
        !any_readable(inputs, n),
        inputs[n as int] is Content,
    ensures
        stdout_of(config, inputs, n + 1) == encode_utf8(
            header_text(config.files[n as int]@, false),
        ) + body_bytes(config, inputs[n as int]->Content_0@),
{
    lemma_nothing_written_before_first_readable(config, inputs, n);
}

/// Every header after the first that is written has an empty line before
/// it.
pub proof fn lemma_later_headers_are_separated(config: &Config, inputs: Seq<Input>, n: nat)
    requires
        shows_headers(config),
        any_readable(inputs, n),
        inputs[n as int] is Content,
    ensures
        stdout_of(config, inputs, n + 1) == stdout_of(config, inputs, n) + encode_utf8(
            header_text(config.files[n as int]@, true),
        ) + body_bytes(config, inputs[n as int]->Content_0@),
{
}

} // verus!
