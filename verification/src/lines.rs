//! Lines of bytes: how many an input holds and where each begins.
//!
//! A line ends with a line feed; bytes that follow the last line feed form
//! a last line without a terminator. No other byte has a meaning here.

use crate::input::ReadError;
use crate::text::utf8_text;
use vstd::prelude::*;
use vstd::string::*;
use vstd::utf8::{decode_utf8, valid_utf8};

verus! {

/// The byte that ends a line.
pub const LINE_END: u8 = 10;

/// How many line terminators `data` holds.
pub open spec fn newline_count(data: Seq<u8>) -> nat
    decreases data.len(),
{
    if data.len() == 0 {
        0
    } else {
        newline_count(data.drop_last()) + if data.last() == LINE_END {
            1nat
        } else {
            0nat
        }
    }
}

/// How many lines `data` holds: one for each terminator, and one more for
/// bytes that follow the last terminator.
pub open spec fn line_count(data: Seq<u8>) -> nat {
    newline_count(data) + if data.len() > 0 && data.last() != LINE_END {
        1nat
    } else {
        0nat
    }
}

/// Terminators add up over concatenation.
pub proof fn lemma_newline_count_concat(a: Seq<u8>, b: Seq<u8>)
    ensures
        newline_count(a + b) == newline_count(a) + newline_count(b),
    decreases b.len(),
{
    if b.len() == 0 {
        assert(a + b =~= a);
    } else {
        assert((a + b).drop_last() =~= a + b.drop_last());
        lemma_newline_count_concat(a, b.drop_last());
    }
}

/// There are no more terminators than bytes.
pub proof fn lemma_newline_count_le_len(data: Seq<u8>)
    ensures
        newline_count(data) <= data.len(),
        line_count(data) <= data.len(),
        line_count(data) == 0 <==> data.len() == 0,
    decreases data.len(),
{
    if data.len() > 0 {
        lemma_newline_count_le_len(data.drop_last());
    }
}

/// The length of the first line of `data`, its terminator included. Bytes
/// without a terminator form one line; no bytes form none.
pub open spec fn first_line_len(data: Seq<u8>) -> nat
    decreases data.len(),
{
    if data.len() == 0 {
        0
    } else if data[0] == LINE_END {
        1
    } else {
        1 + first_line_len(data.skip(1))
    }
}

/// The offset at which line `k` begins, lines counted from zero; the length
/// of `data` when it has no such line.
pub open spec fn line_start(data: Seq<u8>, k: nat) -> nat
    decreases k,
{
    if k == 0 {
        0
    } else {
        let p = line_start(data, (k - 1) as nat);
        p + first_line_len(data.skip(p as int))
    }
}

/// The lines of `data` from line `k` on, terminators kept.
pub open spec fn lines_from(data: Seq<u8>, k: nat) -> Seq<u8> {
    data.skip(line_start(data, k) as int)
}

/// A run of `n` bytes without a terminator lies within the first line.
pub proof fn lemma_first_line_skips_run(data: Seq<u8>, n: nat)
    requires
        n <= data.len(),
        forall|j: int| 0 <= j < n ==> data[j] != LINE_END,
    ensures
        first_line_len(data) == n + first_line_len(data.skip(n as int)),
    decreases n,
{
    if n == 0 {
        assert(data.skip(0) =~= data);
    } else {
        let rest = data.skip(1);
        assert forall|j: int| 0 <= j < n - 1 implies rest[j] != LINE_END by {
            assert(rest[j] == data[j + 1]);
        }
        lemma_first_line_skips_run(rest, (n - 1) as nat);
        assert(rest.skip(n - 1) =~= data.skip(n as int));
    }
}

/// The first line is not empty unless the input is, ends at the first
/// terminator, and holds no terminator before its last byte.
pub proof fn lemma_first_line(data: Seq<u8>)
    ensures
        first_line_len(data) <= data.len(),
        data.len() > 0 ==> first_line_len(data) >= 1,
        forall|j: int| 0 <= j < first_line_len(data) - 1 ==> data[j] != LINE_END,
        first_line_len(data) < data.len() ==> data[first_line_len(data) - 1] == LINE_END,
    decreases data.len(),
{
    if data.len() > 0 && data[0] != LINE_END {
        let rest = data.skip(1);
        lemma_first_line(rest);
        assert forall|j: int| 0 <= j < first_line_len(data) - 1 implies data[j] != LINE_END by {
            if j > 0 {
                assert(data[j] == rest[j - 1]);
            }
        }
        if first_line_len(data) < data.len() {
            assert(data[first_line_len(data) - 1] == rest[first_line_len(rest) - 1]);
        }
    }
}

/// A stretch of bytes without a terminator holds no terminator.
pub proof fn lemma_no_newline_count(data: Seq<u8>)
    requires
        forall|j: int| 0 <= j < data.len() ==> data[j] != LINE_END,
    ensures
        newline_count(data) == 0,
    decreases data.len(),
{
    if data.len() > 0 {
        lemma_no_newline_count(data.drop_last());
    }
}

/// Taking the first line away leaves one line less.
pub proof fn lemma_drop_first_line(data: Seq<u8>)
    requires
        data.len() > 0,
    ensures
        line_count(data.skip(first_line_len(data) as int)) + 1 == line_count(data),
{
    lemma_first_line(data);
    let n = first_line_len(data) as int;
    let head = data.take(n);
    let rest = data.skip(n);
    assert(data =~= head + rest);
    lemma_newline_count_concat(head, rest);
    let body = head.drop_last();
    lemma_no_newline_count(body);
    if rest.len() > 0 {
        assert(rest.last() == data.last());
    } else {
        assert(newline_count(rest) == 0);
        assert(head =~= data);
    }
}

/// Taking a first line away that ends with a terminator leaves one
/// terminator less.
pub proof fn lemma_drop_terminated_line(data: Seq<u8>)
    requires
        newline_count(data) > 0,
    ensures
        newline_count(data.skip(first_line_len(data) as int)) + 1 == newline_count(data),
{
    lemma_first_line(data);
    let n = first_line_len(data) as int;
    let head = data.take(n);
    let rest = data.skip(n);
    assert(data =~= head + rest);
    lemma_newline_count_concat(head, rest);
    lemma_no_newline_count(head.drop_last());
    if rest.len() == 0 {
        assert(newline_count(rest) == 0);
        assert(head =~= data);
    }
}

/// Line starts never pass the end of the input and never move backwards.
pub proof fn lemma_line_start_bounds(data: Seq<u8>, k: nat)
    ensures
        line_start(data, k) <= data.len(),
        k > 0 ==> line_start(data, (k - 1) as nat) <= line_start(data, k),
    decreases k,
{
    if k > 0 {
        lemma_line_start_bounds(data, (k - 1) as nat);
        lemma_first_line(data.skip(line_start(data, (k - 1) as nat) as int));
    }
}

/// Once a line start has reached the end of the input, all later ones
/// stay there.
pub proof fn lemma_line_start_at_end(data: Seq<u8>, j: nat, k: nat)
    requires
        j <= k,
        line_start(data, j) == data.len(),
    ensures
        line_start(data, k) == data.len(),
    decreases k,
{
    if j < k {
        lemma_line_start_at_end(data, j, (k - 1) as nat);
    }
}

/// Skipping `k` lines of an input that has at least `k` leaves the others.
pub proof fn lemma_lines_from_count(data: Seq<u8>, k: nat)
    requires
        k <= line_count(data),
    ensures
        line_count(lines_from(data, k)) == line_count(data) - k,
    decreases k,
{
    if k == 0 {
        assert(data.skip(0) =~= data);
    } else {
        let j = (k - 1) as nat;
        lemma_lines_from_count(data, j);
        lemma_line_start_bounds(data, j);
        let rest = lines_from(data, j);
        lemma_newline_count_le_len(rest);
        lemma_drop_first_line(rest);
        lemma_first_line(rest);
        assert(line_start(data, k) == line_start(data, j) + first_line_len(rest));
        assert(rest.skip(first_line_len(rest) as int) =~= lines_from(data, k));
    }
}

/// Skipping `k` lines of an input that has at least `k` terminators
/// leaves the other terminators.
pub proof fn lemma_lines_from_newlines(data: Seq<u8>, k: nat)
    requires
        k <= newline_count(data),
    ensures
        newline_count(lines_from(data, k)) == newline_count(data) - k,
    decreases k,
{
    if k == 0 {
        assert(data.skip(0) =~= data);
    } else {
        let j = (k - 1) as nat;
        lemma_lines_from_newlines(data, j);
        lemma_line_start_bounds(data, j);
        let rest = lines_from(data, j);
        lemma_drop_terminated_line(rest);
        lemma_first_line(rest);
        assert(line_start(data, k) == line_start(data, j) + first_line_len(rest));
        assert(rest.skip(first_line_len(rest) as int) =~= lines_from(data, k));
    }
}

/// Counts the line terminators of an input in one forward pass.
pub fn count_newlines(data: &[u8]) -> (count: usize)
    ensures
        count == newline_count(data@),
{
    let mut count: usize = 0;
    let mut i: usize = 0;
    while i < data.len()
        invariant
            i <= data.len(),
            count == newline_count(data@.take(i as int)),
            count <= i,
        decreases data.len() - i,
    {
        proof {
            assert(data@.take(i + 1).drop_last() =~= data@.take(i as int));
        }
        if data[i] == LINE_END {
            count += 1;
        }
        i += 1;
    }
    assert(data@.take(i as int) =~= data@);
    count
}

/// Counts the lines of an input: its terminators, and one more for bytes
/// that follow the last terminator.
pub fn count_lines(data: &[u8]) -> (count: usize)
    ensures
        count == line_count(data@),
{
    let terminated = count_newlines(data);
    let n = data.len();
    if n > 0 && data[n - 1] != LINE_END {
        proof {
            lemma_newline_count_le_len(data@.drop_last());
        }
        terminated + 1
    } else {
        terminated
    }
}

/// Finds where the line that begins at `p` ends: the offset just past
/// its terminator, or the end of the input.
pub fn next_line_start(data: &[u8], p: usize) -> (q: usize)
    requires
        p <= data@.len(),
    ensures
        q == p + first_line_len(data@.skip(p as int)),
        p <= q <= data@.len(),
        p < data@.len() ==> p < q,
{
    let mut q: usize = p;
    while q < data.len() && data[q] != LINE_END
        invariant
            p <= q <= data.len(),
            forall|j: int| p <= j < q ==> data@[j] != LINE_END,
        decreases data.len() - q,
    {
        q += 1;
    }
    proof {
        let tail = data@.skip(p as int);
        assert forall|j: int| 0 <= j < q - p implies tail[j] != LINE_END by {
            assert(tail[j] == data@[p + j]);
        }
        lemma_first_line_skips_run(tail, (q - p) as nat);
        assert(tail.skip(q - p) =~= data@.skip(q as int));
    }
    if q < data.len() {
        q += 1;
    }
    q
}

/// Finds the offset at which line `k` begins.
pub fn find_line_start(data: &[u8], k: u64) -> (p: usize)
    ensures
        p == line_start(data@, k as nat),
        p <= data@.len(),
{
    let mut p: usize = 0;
    let mut seen: u64 = 0;
    while seen < k && p < data.len()
        invariant
            p <= data.len(),
            seen <= k,
            p == line_start(data@, seen as nat),
        decreases k - seen,
    {
        p = next_line_start(data, p);
        seen += 1;
    }
    proof {
        if seen < k {
            lemma_line_start_at_end(data@, seen as nat, k as nat);
        }
    }
    p
}

/// Line `k` of `data`, lines counted from zero, its terminator included.
pub open spec fn raw_line(data: Seq<u8>, k: nat) -> Seq<u8> {
    data.subrange(line_start(data, k) as int, line_start(data, k + 1) as int)
}

/// A line without its terminator, which is a line feed or a carriage
/// return and a line feed.
pub open spec fn line_body(line: Seq<u8>) -> Seq<u8> {
    if line.len() > 0 && line.last() == LINE_END {
        let cut = line.drop_last();
        if cut.len() > 0 && cut.last() == 13 {
            cut.drop_last()
        } else {
            cut
        }
    } else {
        line
    }
}

/// Splits an input into its lines, terminators included.
pub fn split_lines<'a>(data: &'a [u8]) -> (lines: Vec<&'a [u8]>)
    ensures
        lines@.len() == line_count(data@),
        forall|k: int| 0 <= k < lines@.len() ==> (#[trigger] lines@[k])@ == raw_line(data@, k as nat),
{
    let mut lines: Vec<&'a [u8]> = Vec::new();
    let mut p: usize = 0;
    proof {
        lemma_lines_from_count(data@, 0);
    }
    while p < data.len()
        invariant
            p <= data.len(),
            p == line_start(data@, lines@.len()),
            lines@.len() <= line_count(data@),
            line_count(data@.skip(p as int)) == line_count(data@) - lines@.len(),
            forall|k: int|
                0 <= k < lines@.len() ==> (#[trigger] lines@[k])@ == raw_line(data@, k as nat),
        decreases data.len() - p,
    {
        let q = next_line_start(data, p);
        proof {
            lemma_newline_count_le_len(data@.skip(p as int));
            lemma_lines_from_count(data@, lines@.len() + 1);
        }
        lines.push(vstd::slice::slice_subrange(data, p, q));
        p = q;
    }
    proof {
        lemma_newline_count_le_len(data@.skip(p as int));
    }
    lines
}

/// Takes the terminator off a line.
pub fn strip_line_end<'a>(line: &'a [u8]) -> (body: &'a [u8])
    ensures
        body@ == line_body(line@),
{
    let n = line.len();
    if n > 0 && line[n - 1] == LINE_END {
        if n > 1 && line[n - 2] == 13 {
            vstd::slice::slice_subrange(line, 0, n - 2)
        } else {
            vstd::slice::slice_subrange(line, 0, n - 1)
        }
    } else {
        vstd::slice::slice_subrange(line, 0, n)
    }
}

/// The bytes of line `k` as they are read: with the terminator when
/// `keep_ends` is set, else without.
pub open spec fn line_bytes(data: Seq<u8>, k: nat, keep_ends: bool) -> Seq<u8> {
    if keep_ends {
        raw_line(data, k)
    } else {
        line_body(raw_line(data, k))
    }
}

/// Line `k` as text.
pub open spec fn line_text(data: Seq<u8>, k: nat, keep_ends: bool) -> Seq<char> {
    decode_utf8(line_bytes(data, k, keep_ends))
}

/// How many of the first `limit` lines can be read as text before the
/// first one that is not well-formed UTF-8.
pub open spec fn readable_among(data: Seq<u8>, limit: nat, keep_ends: bool) -> nat
    decreases limit,
{
    if limit == 0 {
        0
    } else {
        let before = readable_among(data, (limit - 1) as nat, keep_ends);
        if before == limit - 1 && valid_utf8(line_bytes(data, (limit - 1) as nat, keep_ends)) {
            limit
        } else {
            before
        }
    }
}

/// How many lines of `data` can be read as text before the first one that
/// is not well-formed UTF-8.
pub open spec fn readable_lines(data: Seq<u8>, keep_ends: bool) -> nat {
    readable_among(data, line_count(data), keep_ends)
}

/// The lines of `data` that can be read as text, in order.
pub open spec fn text_lines(data: Seq<u8>, keep_ends: bool) -> Seq<Seq<char>> {
    Seq::new(readable_lines(data, keep_ends), |k: int| line_text(data, k as nat, keep_ends))
}

/// Reading stops for good at the first line that is no text.
pub proof fn lemma_readable_stops(data: Seq<u8>, bad: nat, limit: nat, keep_ends: bool)
    requires
        bad < limit,
        readable_among(data, bad, keep_ends) == bad,
        !valid_utf8(line_bytes(data, bad, keep_ends)),
    ensures
        readable_among(data, limit, keep_ends) == bad,
    decreases limit,
{
    if limit > bad + 1 {
        lemma_readable_stops(data, bad, (limit - 1) as nat, keep_ends);
    }
}

/// How many lines are asked of `data` when at most `limit` are wanted.
pub open spec fn lines_wanted(data: Seq<u8>, limit: nat) -> nat {
    if limit <= line_count(data) {
        limit
    } else {
        line_count(data)
    }
}

/// The first lines of `data`, at most `limit` of them, that can be read as
/// text.
pub open spec fn first_text_lines(data: Seq<u8>, limit: nat, keep_ends: bool) -> Seq<Seq<char>> {
    Seq::new(
        readable_among(data, lines_wanted(data, limit), keep_ends),
        |k: int| line_text(data, k as nat, keep_ends),
    )
}

/// Reads an input line by line as text, up to the first line that is not
/// well-formed UTF-8. The lines keep their terminators when `keep_ends`
/// is set; else a trailing line feed, or carriage return and line feed, is
/// taken off each.
pub fn read_lines(data: &[u8], keep_ends: bool) -> (r: (Vec<String>, Option<ReadError>))
    ensures
        crate::text::texts(r.0@) == text_lines(data@, keep_ends),
        r.1 == if readable_lines(data@, keep_ends) < line_count(data@) {
            Some(ReadError::InvalidUtf8)
        } else {
            None
        },
{
    let all = data.len();
    proof {
        lemma_newline_count_le_len(data@);
    }
    let r = read_first_lines(data, all as u64, keep_ends);
    assert(first_text_lines(data@, all as nat, keep_ends) =~= text_lines(data@, keep_ends));
    r
}

/// Reads at most `limit` lines of an input as text, up to the first line
/// that is not well-formed UTF-8. No line after the last one asked for is
/// looked at.
pub fn read_first_lines(data: &[u8], limit: u64, keep_ends: bool) -> (r: (
    Vec<String>,
    Option<ReadError>,
))
    ensures
        crate::text::texts(r.0@) == first_text_lines(data@, limit as nat, keep_ends),
        r.1 == if readable_among(data@, lines_wanted(data@, limit as nat), keep_ends)
            < lines_wanted(data@, limit as nat) {
            Some(ReadError::InvalidUtf8)
        } else {
            None
        },
{
    let raw = split_lines(data);
    let wanted: usize = if limit <= raw.len() as u64 {
        limit as usize
    } else {
        raw.len()
    };
    let mut lines: Vec<String> = Vec::new();
    let mut k: usize = 0;
    while k < wanted
        invariant
            k <= wanted <= raw@.len(),
            wanted == lines_wanted(data@, limit as nat),
            raw@.len() == line_count(data@),
            forall|j: int| 0 <= j < raw@.len() ==> (#[trigger] raw@[j])@ == raw_line(data@, j as nat),
            lines@.len() == k,
            readable_among(data@, k as nat, keep_ends) == k,
            forall|j: int|
                0 <= j < k ==> (#[trigger] lines@[j])@ == line_text(data@, j as nat, keep_ends),
        decreases wanted - k,
    {
        let bytes: &[u8] = if keep_ends {
            raw[k]
        } else {
            strip_line_end(raw[k])
        };
        assert(bytes@ == line_bytes(data@, k as nat, keep_ends));
        match utf8_text(bytes) {
            Some(text) => {
                lines.push(String::from_str(text));
            },
            None => {
                proof {
                    lemma_readable_stops(data@, k as nat, wanted as nat, keep_ends);
                    assert(crate::text::texts(lines@) =~= first_text_lines(
                        data@,
                        limit as nat,
                        keep_ends,
                    ));
                }
                return (lines, Some(ReadError::InvalidUtf8));
            },
        }
        k += 1;
    }
    assert(crate::text::texts(lines@) =~= first_text_lines(data@, limit as nat, keep_ends));
    (lines, None)
}

} // verus!
