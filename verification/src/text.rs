//! Building text: numbers in decimal, and padding to a width.

use crate::decimal::{all_digits, digits_value, is_digit};
use vstd::prelude::*;
use vstd::std_specs::iter::IteratorSpec;
use vstd::string::*;
use vstd::utf8::{decode_utf8, encode_utf8, valid_utf8};

verus! {

/// The views of a sequence of strings.
pub open spec fn texts(lines: Seq<String>) -> Seq<Seq<char>> {
    Seq::new(lines.len(), |i: int| lines[i]@)
}

/// The concatenation of `lines`, each followed by a line feed.
pub open spec fn joined_lines(lines: Seq<Seq<char>>) -> Seq<char>
    decreases lines.len(),
{
    if lines.len() == 0 {
        Seq::empty()
    } else {
        joined_lines(lines.drop_last()) + lines.last() + seq!['\n']
    }
}

/// The character that stands for a digit below ten.
pub open spec fn digit_char(d: nat) -> char {
    (d + '0' as nat) as char
}

/// The digits of `n` in base ten, without leading zeros; zero is `0`.
pub open spec fn decimal_digits(n: nat) -> Seq<char>
    decreases n,
{
    if n < 10 {
        seq![digit_char(n)]
    } else {
        decimal_digits(n / 10).push(digit_char(n % 10))
    }
}

/// A signed number in decimal: a minus sign before the digits of a
/// negative number.
pub open spec fn signed_digits(n: int) -> Seq<char> {
    if n < 0 {
        seq!['-'] + decimal_digits((-n) as nat)
    } else {
        decimal_digits(n as nat)
    }
}

/// `count` spaces.
pub open spec fn spaces(count: nat) -> Seq<char> {
    Seq::new(count, |i: int| ' ')
}

/// `text` moved to the right edge of a field of `width` characters; text
/// that is wider than the field is left as it is.
pub open spec fn pad_left(text: Seq<char>, width: nat) -> Seq<char> {
    if text.len() >= width {
        text
    } else {
        spaces((width - text.len()) as nat) + text
    }
}

/// `text` at the left edge of a field of `width` characters; text that is
/// wider than the field is left as it is.
pub open spec fn pad_right(text: Seq<char>, width: nat) -> Seq<char> {
    if text.len() >= width {
        text
    } else {
        text + spaces((width - text.len()) as nat)
    }
}

/// `text` in the middle of a field of `width` characters; when the space
/// left over is odd, the larger half goes to the right.
pub open spec fn pad_center(text: Seq<char>, width: nat) -> Seq<char> {
    if text.len() >= width {
        text
    } else {
        let room = (width - text.len()) as nat;
        spaces(room / 2) + text + spaces((room - room / 2) as nat)
    }
}

/// Writing a number in decimal and reading it back gives the number.
pub proof fn lemma_decimal_digits_round_trip(n: nat)
    ensures
        all_digits(decimal_digits(n)),
        digits_value(decimal_digits(n)) == n,
        decimal_digits(n).len() >= 1,
        n > 0 ==> decimal_digits(n)[0] != '0',
    decreases n,
{
    if n < 10 {
        let one = decimal_digits(n);
        assert(one.drop_last() =~= Seq::<char>::empty());
        assert(digits_value(one.drop_last()) == 0);
    } else {
        lemma_decimal_digits_round_trip(n / 10);
        let all = decimal_digits(n);
        assert(all.drop_last() =~= decimal_digits(n / 10));
        assert(all.last() == digit_char(n % 10));
        assert forall|i: int| 0 <= i < all.len() implies is_digit(#[trigger] all[i]) by {
            if i < all.len() - 1 {
                assert(all[i] == decimal_digits(n / 10)[i]);
            }
        }
    }
}

/// The text of one digit.
fn digit_str(d: u8) -> (s: &'static str)
    requires
        d < 10,
    ensures
        s@ == seq![digit_char(d as nat)],
{
    proof {
        reveal_strlit("0");
        reveal_strlit("1");
        reveal_strlit("2");
        reveal_strlit("3");
        reveal_strlit("4");
        reveal_strlit("5");
        reveal_strlit("6");
        reveal_strlit("7");
        reveal_strlit("8");
        reveal_strlit("9");
    }
    let s = match d {
        0 => "0",
        1 => "1",
        2 => "2",
        3 => "3",
        4 => "4",
        5 => "5",
        6 => "6",
        7 => "7",
        8 => "8",
        _ => "9",
    };
    assert(s@ =~= seq![digit_char(d as nat)]);
    s
}

/// Writes `n` in decimal.
pub fn u64_to_string(n: u64) -> (s: String)
    ensures
        s@ == decimal_digits(n as nat),
{
    let mut low_first: Vec<u8> = Vec::new();
    let mut rest: u64 = n;
    while rest >= 10
        invariant
            forall|i: int| 0 <= i < low_first.len() ==> low_first[i] < 10,
            decimal_digits(n as nat) =~= decimal_digits(rest as nat) + Seq::new(
                low_first.len() as nat,
                |i: int| digit_char(low_first[low_first.len() - 1 - i] as nat),
            ),
        decreases rest,
    {
        low_first.push((rest % 10) as u8);
        rest = rest / 10;
    }
    let mut s = String::new();
    s.append(digit_str(rest as u8));
    let mut k: usize = low_first.len();
    while k > 0
        invariant
            k <= low_first.len(),
            forall|i: int| 0 <= i < low_first.len() ==> low_first[i] < 10,
            s@ =~= decimal_digits(rest as nat) + Seq::new(
                (low_first.len() - k) as nat,
                |i: int| digit_char(low_first[low_first.len() - 1 - i] as nat),
            ),
        decreases k,
    {
        k -= 1;
        s.append(digit_str(low_first[k]));
    }
    s
}

/// The characters with the Unicode property `White_Space`, which separate
/// words.
pub open spec fn is_white_space(c: char) -> bool {
    let v = c as u32;
    ||| 0x09 <= v <= 0x0d
    ||| v == 0x20
    ||| v == 0x85
    ||| v == 0xa0
    ||| v == 0x1680
    ||| 0x2000 <= v <= 0x200a
    ||| v == 0x2028
    ||| v == 0x2029
    ||| v == 0x202f
    ||| v == 0x205f
    ||| v == 0x3000
}

/// Tells whether `c` separates words.
pub fn is_whitespace(c: char) -> (r: bool)
    ensures
        r == is_white_space(c),
{
    let v: u32 = c as u32;
    (0x09 <= v && v <= 0x0d) || v == 0x20 || v == 0x85 || v == 0xa0 || v == 0x1680 || (0x2000 <= v
        && v <= 0x200a) || v == 0x2028 || v == 0x2029 || v == 0x202f || v == 0x205f || v == 0x3000
}

/// Every character takes at least one byte.
pub proof fn lemma_chars_le_bytes(text: Seq<char>)
    ensures
        text.len() <= encode_utf8(text).len(),
    decreases text.len(),
{
    if text.len() > 0 {
        lemma_chars_le_bytes(text.drop_first());
    }
}

/// Calls `std::str::from_utf8`.
///
/// Trusted: the call succeeds exactly on well-formed UTF-8, and the text it
/// returns is the decoding of the bytes, as the standard library documents.
#[verifier::external_body]
pub(crate) fn utf8_text(data: &[u8]) -> (r: Option<&str>)
    ensures
        r is Some <==> valid_utf8(data@),
        r matches Some(text) ==> text@ == decode_utf8(data@),
{
    std::str::from_utf8(data).ok()
}

/// The text that `String::from_utf8_lossy` makes of `bytes`: the bytes decoded as
/// UTF-8, with a replacement marker wherever they are malformed.
pub uninterp spec fn lossy_text(bytes: Seq<u8>) -> Seq<char>;

/// Calls `String::from_utf8_lossy` and owns the result.
///
/// Trusted: the result is the lenient decoding named by [`lossy_text`], and
/// for well-formed UTF-8 it is the plain decoding, as the standard library
/// documents. The call cannot fail.
#[verifier::external_body]
pub(crate) fn utf8_lossy(bytes: &[u8]) -> (text: String)
    ensures
        text@ == lossy_text(bytes@),
        valid_utf8(bytes@) ==> text@ == decode_utf8(bytes@),
{
    String::from_utf8_lossy(bytes).into_owned()
}

/// The text shown for a selection of bytes: nothing for no bytes, else
/// their lenient decoding.
pub open spec fn shown_text(bytes: Seq<u8>) -> Seq<char> {
    if bytes.len() == 0 {
        Seq::empty()
    } else {
        lossy_text(bytes)
    }
}

/// Turns bytes into text for display. Malformed sequences are shown with
/// a replacement marker and never make the call fail; well-formed UTF-8
/// comes out byte for byte.
pub fn show_bytes(bytes: &[u8]) -> (text: String)
    ensures
        text@ == shown_text(bytes@),
        valid_utf8(bytes@) ==> encode_utf8(text@) == bytes@,
{
    if bytes.len() == 0 {
        String::new()
    } else {
        proof {
            if valid_utf8(bytes@) {
                vstd::utf8::decode_utf8_encode_utf8(bytes@);
            }
        }
        utf8_lossy(bytes)
    }
}

/// The texts of `lines` one after another, with nothing between them.
pub open spec fn concat_texts(lines: Seq<Seq<char>>) -> Seq<char>
    decreases lines.len(),
{
    if lines.len() == 0 {
        Seq::empty()
    } else {
        concat_texts(lines.drop_last()) + lines.last()
    }
}

/// Writes `lines` one after another, with nothing between them.
pub fn concat_lines(lines: &Vec<String>) -> (out: String)
    ensures
        out@ == concat_texts(texts(lines@)),
{
    let mut out = String::new();
    let mut i: usize = 0;
    while i < lines.len()
        invariant
            i <= lines.len(),
            out@ == concat_texts(texts(lines@).take(i as int)),
        decreases lines.len() - i,
    {
        proof {
            let next = texts(lines@).take(i + 1);
            assert(next.drop_last() =~= texts(lines@).take(i as int));
        }
        out.append(lines[i].as_str());
        i += 1;
    }
    assert(texts(lines@).take(i as int) =~= texts(lines@));
    out
}

/// `text` without the white space at its end.
pub open spec fn trimmed_end(text: Seq<char>) -> Seq<char>
    decreases text.len(),
{
    if text.len() == 0 || !is_white_space(text.last()) {
        text
    } else {
        trimmed_end(text.drop_last())
    }
}

/// Taking the white space off the end leaves a beginning of the text.
pub proof fn lemma_trimmed_end_is_prefix(text: Seq<char>)
    ensures
        trimmed_end(text).len() <= text.len(),
        trimmed_end(text) == text.take(trimmed_end(text).len() as int),
    decreases text.len(),
{
    if text.len() == 0 || !is_white_space(text.last()) {
        assert(text.take(text.len() as int) =~= text);
    } else {
        lemma_trimmed_end_is_prefix(text.drop_last());
        let n = trimmed_end(text).len() as int;
        assert(text.drop_last().take(n) =~= text.take(n));
    }
}

/// Takes the white space off the end of `text`.
pub fn trim_end(text: &str) -> (trimmed: &str)
    ensures
        trimmed@ == trimmed_end(text@),
{
    let mut it = text.chars();
    let mut seen: usize = 0;
    let mut kept: usize = 0;
    let total = text.unicode_len();
    proof {
        axiom_spec_iter(text);
    }
    loop
        invariant
            it.obeys_prophetic_iter_laws(),
            kept <= seen <= text@.len(),
            total == text@.len(),
            text@ == text@.take(seen as int) + it.remaining(),
            kept == trimmed_end(text@.take(seen as int)).len(),
        ensures
            kept <= text@.len(),
            kept == trimmed_end(text@).len(),
        decreases text@.len() - seen,
    {
        let ghost before = it;
        let next = it.next();
        proof {
            next_postcondition(&before, &it, next);
        }
        match next {
            Some(c) => {
                proof {
                    assert(text@.len() == seen + before.remaining().len());
                    assert(text@[seen as int] == before.remaining()[0]);
                    let grown = text@.take(seen + 1);
                    assert(grown.drop_last() =~= text@.take(seen as int));
                    assert(grown.last() == c);
                    assert(grown + it.remaining() =~= text@);
                }
                seen += 1;
                if !is_whitespace(c) {
                    kept = seen;
                }
            },
            None => {
                proof {
                    assert(text@.take(seen as int) =~= text@);
                }
                break ;
            },
        }
    }
    proof {
        lemma_trimmed_end_is_prefix(text@);
    }
    text.substring_char(0, kept)
}

/// The number of characters of `text` before the first `sep`, or the
/// length of `text` when it holds none.
pub open spec fn piece_len(text: Seq<char>, sep: char) -> nat
    decreases text.len(),
{
    if text.len() == 0 || text[0] == sep {
        0
    } else {
        1 + piece_len(text.skip(1), sep)
    }
}

/// The pieces of `text` between occurrences of `sep`. There is always at
/// least one piece; a separator at the start or the end, or two in a row,
/// give an empty piece.
pub open spec fn split_on(text: Seq<char>, sep: char) -> Seq<Seq<char>>
    decreases text.len(),
{
    let n = piece_len(text, sep);
    if n >= text.len() {
        seq![text]
    } else {
        seq![text.take(n as int)] + split_on(text.skip(n as int + 1), sep)
    }
}

/// A run of `n` characters without a separator lies within the first
/// piece.
pub proof fn lemma_piece_skips_run(text: Seq<char>, sep: char, n: nat)
    requires
        n <= text.len(),
        forall|j: int| 0 <= j < n ==> text[j] != sep,
    ensures
        piece_len(text, sep) == n + piece_len(text.skip(n as int), sep),
    decreases n,
{
    if n == 0 {
        assert(text.skip(0) =~= text);
    } else {
        let rest = text.skip(1);
        assert forall|j: int| 0 <= j < n - 1 implies rest[j] != sep by {
            assert(rest[j] == text[j + 1]);
        }
        lemma_piece_skips_run(rest, sep, (n - 1) as nat);
        assert(rest.skip(n - 1) =~= text.skip(n as int));
    }
}

/// Splits `text` at every `sep`.
pub fn split(text: &str, sep: char) -> (pieces: Vec<String>)
    ensures
        texts(pieces@) == split_on(text@, sep),
{
    let mut pieces: Vec<String> = Vec::new();
    let mut it = text.chars();
    let total = text.unicode_len();
    let mut from: usize = 0;
    let mut seen: usize = 0;
    proof {
        axiom_spec_iter(text);
        assert(text@.skip(0) =~= text@);
    }
    loop
        invariant
            it.obeys_prophetic_iter_laws(),
            from <= seen <= text@.len(),
            total == text@.len(),
            text@ == text@.take(seen as int) + it.remaining(),
            forall|j: int| from <= j < seen ==> text@[j] != sep,
            split_on(text@, sep) == texts(pieces@) + split_on(text@.skip(from as int), sep),
        ensures
            from <= text@.len(),
            seen == text@.len(),
            forall|j: int| from <= j < seen ==> text@[j] != sep,
            split_on(text@, sep) == texts(pieces@) + split_on(text@.skip(from as int), sep),
        decreases text@.len() - seen,
    {
        let ghost before = it;
        let next = it.next();
        proof {
            next_postcondition(&before, &it, next);
        }
        match next {
            Some(c) => {
                proof {
                    assert(text@.len() == seen + before.remaining().len());
                    assert(text@[seen as int] == before.remaining()[0]);
                    assert(text@.take(seen + 1) + it.remaining() =~= text@);
                }
                if c == sep {
                    let piece = text.substring_char(from, seen);
                    proof {
                        let tail = text@.skip(from as int);
                        assert forall|j: int| 0 <= j < seen - from implies tail[j] != sep by {
                            assert(tail[j] == text@[from + j]);
                        }
                        lemma_piece_skips_run(tail, sep, (seen - from) as nat);
                        assert(tail.skip(seen - from)[0] == sep);
                        assert(piece_len(tail, sep) == seen - from);
                        assert(tail.take(seen - from) =~= piece@);
                        assert(tail.skip(seen - from + 1) =~= text@.skip(seen + 1));
                    }
                    let ghost old_pieces = pieces@;
                    pieces.push(String::from_str(piece));
                    proof {
                        assert(texts(pieces@) =~= texts(old_pieces) + seq![piece@]);
                        assert(texts(old_pieces) + (seq![piece@] + split_on(
                            text@.skip(seen + 1),
                            sep,
                        )) =~= texts(pieces@) + split_on(text@.skip(seen + 1), sep));
                    }
                    seen += 1;
                    from = seen;
                } else {
                    seen += 1;
                }
            },
            None => {
                proof {
                    assert(text@.take(seen as int) =~= text@);
                }
                break ;
            },
        }
    }
    let piece = text.substring_char(from, seen);
    proof {
        let tail = text@.skip(from as int);
        assert forall|j: int| 0 <= j < seen - from implies tail[j] != sep by {
            assert(tail[j] == text@[from + j]);
        }
        lemma_piece_skips_run(tail, sep, (seen - from) as nat);
        assert(tail.skip(seen - from) =~= Seq::<char>::empty());
        assert(tail =~= piece@);
    }
    let ghost old_pieces = pieces@;
    pieces.push(String::from_str(piece));
    assert(texts(pieces@) =~= texts(old_pieces) + seq![piece@]);
    pieces
}

/// `pieces` one after another with `sep` between them.
pub open spec fn joined_with(pieces: Seq<Seq<char>>, sep: Seq<char>) -> Seq<char>
    decreases pieces.len(),
{
    if pieces.len() == 0 {
        Seq::empty()
    } else if pieces.len() == 1 {
        pieces[0]
    } else {
        joined_with(pieces.drop_last(), sep) + sep + pieces.last()
    }
}

/// Writes `pieces` one after another with `sep` between them.
pub fn join(pieces: &Vec<String>, sep: &str) -> (out: String)
    ensures
        out@ == joined_with(texts(pieces@), sep@),
{
    let mut out = String::new();
    let mut i: usize = 0;
    while i < pieces.len()
        invariant
            i <= pieces.len(),
            out@ == joined_with(texts(pieces@).take(i as int), sep@),
        decreases pieces.len() - i,
    {
        proof {
            let next = texts(pieces@).take(i + 1);
            assert(next.drop_last() =~= texts(pieces@).take(i as int));
            assert(next.last() == pieces@[i as int]@);
        }
        if i > 0 {
            out.append(sep);
        }
        out.append(pieces[i].as_str());
        assert(out@ =~= joined_with(texts(pieces@).take(i + 1), sep@));
        i += 1;
    }
    assert(texts(pieces@).take(i as int) =~= texts(pieces@));
    out
}

/// The lower-case form that `str::to_lowercase` gives a text.
pub uninterp spec fn lowercase_of(text: Seq<char>) -> Seq<char>;

/// Calls `str::to_lowercase`.
///
/// Trusted: the result is the lower-case form of the text under the
/// Unicode case mapping of the standard library, named by
/// [`lowercase_of`]. The call cannot fail.
#[verifier::external_body]
pub(crate) fn to_lowercase(text: &str) -> (lowered: String)
    ensures
        lowered@ == lowercase_of(text@),
{
    text.to_lowercase()
}

/// Tells whether `text` begins with `prefix`.
pub fn starts_with(text: &str, prefix: &str) -> (r: bool)
    ensures
        r == prefix@.is_prefix_of(text@),
{
    let mut rest = text.chars();
    let mut wanted = prefix.chars();
    let ghost mut seen: int = 0;
    proof {
        axiom_spec_iter(text);
        axiom_spec_iter(prefix);
    }
    loop
        invariant
            rest.obeys_prophetic_iter_laws(),
            wanted.obeys_prophetic_iter_laws(),
            0 <= seen <= prefix@.len(),
            seen <= text@.len(),
            text@ == text@.take(seen) + rest.remaining(),
            prefix@ == prefix@.take(seen) + wanted.remaining(),
            text@.take(seen) == prefix@.take(seen),
        decreases prefix@.len() - seen,
    {
        let ghost wanted_before = wanted;
        let ghost rest_before = rest;
        let want = wanted.next();
        proof {
            next_postcondition(&wanted_before, &wanted, want);
        }
        match want {
            None => {
                proof {
                    assert(prefix@.take(seen) =~= prefix@);
                }
                return true;
            },
            Some(w) => {
                assert(prefix@.len() == seen + wanted_before.remaining().len());
                assert(prefix@[seen] == wanted_before.remaining()[0]);
                let have = rest.next();
                proof {
                    next_postcondition(&rest_before, &rest, have);
                }
                match have {
                    None => {
                        proof {
                            assert(text@.take(seen) =~= text@);
                        }
                        return false;
                    },
                    Some(c) => {
                        assert(text@.len() == seen + rest_before.remaining().len());
                        assert(text@[seen] == rest_before.remaining()[0]);
                        if c != w {
                            proof {
                                if prefix@.is_prefix_of(text@) {
                                    assert(text@.subrange(0, prefix@.len() as int)[seen]
                                        == prefix@[seen]);
                                }
                            }
                            return false;
                        }
                        proof {
                            assert(text@.take(seen + 1) =~= text@.take(seen).push(c));
                            assert(prefix@.take(seen + 1) =~= prefix@.take(seen).push(w));
                            assert(text@.take(seen + 1) + rest.remaining() =~= text@);
                            assert(prefix@.take(seen + 1) + wanted.remaining() =~= prefix@);
                            seen = seen + 1;
                        }
                    },
                }
            },
        }
    }
}

/// Writes a signed number in decimal.
pub fn i64_to_string(n: i64) -> (s: String)
    ensures
        s@ == signed_digits(n as int),
{
    if n < 0 {
        proof {
            reveal_strlit("-");
        }
        let magnitude: u64 = if n == i64::MIN {
            0x8000_0000_0000_0000u64
        } else {
            (-n) as u64
        };
        let mut s = String::from_str("-");
        s.append(u64_to_string(magnitude).as_str());
        assert(s@ =~= signed_digits(n as int));
        s
    } else {
        u64_to_string(n as u64)
    }
}

/// Tells whether two texts are the same.
pub fn same_text(a: &str, b: &str) -> (same: bool)
    ensures
        same == (a@ == b@),
{
    let same = starts_with(a, b) && starts_with(b, a);
    proof {
        if same {
            assert(a@ =~= b@);
        }
        if a@ == b@ {
            assert(a@.subrange(0, a@.len() as int) =~= a@);
        }
    }
    same
}

/// The first character of `s`, if it has one.
pub fn first_char(s: &str) -> (first: Option<char>)
    ensures
        s@.len() == 0 ==> first is None,
        s@.len() > 0 ==> first == Some(s@[0]),
{
    let mut it = s.chars();
    let ghost before = it;
    proof {
        axiom_spec_iter(s);
    }
    let first = it.next();
    proof {
        next_postcondition(&before, &it, first);
    }
    first
}

/// Appends `line` and a line feed to `out`.
pub fn push_line(out: &mut String, line: &str)
    ensures
        final(out)@ == old(out)@ + line@ + seq!['\n'],
{
    proof {
        reveal_strlit("\n");
    }
    out.append(line);
    out.append("\n");
    assert(out@ =~= old(out)@ + line@ + seq!['\n']);
}

/// Writes `lines` one after another, each followed by a line feed.
pub fn join_lines(lines: &Vec<String>) -> (out: String)
    ensures
        out@ == joined_lines(texts(lines@)),
{
    let mut out = String::new();
    let mut i: usize = 0;
    while i < lines.len()
        invariant
            i <= lines.len(),
            out@ == joined_lines(texts(lines@).take(i as int)),
        decreases lines.len() - i,
    {
        proof {
            let next = texts(lines@).take(i + 1);
            assert(next.drop_last() =~= texts(lines@).take(i as int));
        }
        push_line(&mut out, lines[i].as_str());
        i += 1;
    }
    assert(texts(lines@).take(i as int) =~= texts(lines@));
    out
}

/// Appends `count` spaces to `s`.
pub fn push_spaces(s: &mut String, count: usize)
    ensures
        final(s)@ == old(s)@ + spaces(count as nat),
{
    let mut i: usize = 0;
    while i < count
        invariant
            i <= count,
            s@ =~= old(s)@ + spaces(i as nat),
        decreases count - i,
    {
        s.append(" ");
        proof {
            reveal_strlit(" ");
            assert(spaces((i + 1) as nat) =~= spaces(i as nat) + seq![' ']);
        }
        i += 1;
    }
}

/// Right-aligns `text` in a field of `width` characters.
pub fn align_right(text: &str, width: usize) -> (s: String)
    ensures
        s@ == pad_left(text@, width as nat),
{
    let len = text.unicode_len();
    let mut s = String::new();
    if len < width {
        push_spaces(&mut s, width - len);
    }
    s.append(text);
    assert(s@ =~= pad_left(text@, width as nat));
    s
}

/// Left-aligns `text` in a field of `width` characters.
pub fn align_left(text: &str, width: usize) -> (s: String)
    ensures
        s@ == pad_right(text@, width as nat),
{
    let len = text.unicode_len();
    let mut s = String::from_str(text);
    if len < width {
        push_spaces(&mut s, width - len);
    }
    s
}

/// Centers `text` in a field of `width` characters.
pub fn align_center(text: &str, width: usize) -> (s: String)
    ensures
        s@ == pad_center(text@, width as nat),
{
    let len = text.unicode_len();
    let mut s = String::new();
    if len < width {
        let room = width - len;
        push_spaces(&mut s, room / 2);
        s.append(text);
        push_spaces(&mut s, room - room / 2);
    } else {
        s.append(text);
    }
    assert(s@ =~= pad_center(text@, width as nat));
    s
}

} // verus!
