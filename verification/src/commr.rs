//! Comparing two sorted inputs line by line, as `comm` does.

use crate::input::{describe_open_failure, open_failure, Input};
use crate::lines::{read_lines, text_lines};
use crate::text::{lowercase_of, push_line, same_text, texts, to_lowercase};
use vstd::prelude::*;
use vstd::string::*;
use vstd::utf8::encode_utf8;

verus! {

/// The settings of one invocation.
#[derive(Debug)]
pub struct Config {
    /// The first input, by name; `-` is the standard input.
    pub file1: String,
    /// The second input, by name; `-` is the standard input.
    pub file2: String,
    /// Leave out the lines that only the first input has.
    pub suppress_unique1: bool,
    /// Leave out the lines that only the second input has.
    pub suppress_unique2: bool,
    /// Leave out the lines that both inputs have.
    pub suppress_common: bool,
    /// Compare lines without regard to case.
    pub insensitive: bool,
    /// What separates the columns.
    pub delimiter: String,
}

/// The column in which a line is written.
#[derive(Debug, PartialEq, Eq, Clone, Copy, Structural)]
pub enum Column {
    /// Lines that only the first input has.
    One,
    /// Lines that only the second input has.
    Two,
    /// Lines that both inputs have.
    Three,
}

/// How one text stands to another in the order of texts.
#[derive(Debug, PartialEq, Eq, Clone, Copy, Structural)]
pub enum Order {
    Less,
    Equal,
    Greater,
}

/// Why nothing was compared.
#[derive(Debug, PartialEq, Eq, Clone, Copy, Structural)]
pub enum Refusal {
    /// Both inputs are the standard input.
    BothStdin,
    /// The first input could not be opened.
    First,
    /// The second input could not be opened.
    Second,
}

/// The order of two byte strings: by the first byte in which they differ,
/// a proper beginning coming before the whole.
pub open spec fn order_of(a: Seq<u8>, b: Seq<u8>) -> Order
    decreases a.len(),
{
    if a.len() == 0 {
        if b.len() == 0 {
            Order::Equal
        } else {
            Order::Less
        }
    } else if b.len() == 0 {
        Order::Greater
    } else if a[0] < b[0] {
        Order::Less
    } else if a[0] > b[0] {
        Order::Greater
    } else {
        order_of(a.skip(1), b.skip(1))
    }
}

/// Byte strings are equal in the order exactly when they are the same.
pub proof fn lemma_order_equal(a: Seq<u8>, b: Seq<u8>)
    ensures
        order_of(a, b) == Order::Equal <==> a == b,
    decreases a.len(),
{
    if a.len() > 0 && b.len() > 0 && a[0] == b[0] {
        lemma_order_equal(a.skip(1), b.skip(1));
        if a.skip(1) == b.skip(1) {
            assert(a =~= seq![a[0]] + a.skip(1));
            assert(b =~= seq![b[0]] + b.skip(1));
        }
    } else if a.len() == 0 && b.len() == 0 {
        assert(a =~= b);
    }
}

/// Turning the comparison round turns the order round.
pub proof fn lemma_order_antisymmetric(a: Seq<u8>, b: Seq<u8>)
    ensures
        order_of(a, b) == Order::Less <==> order_of(b, a) == Order::Greater,
    decreases a.len(),
{
    if a.len() > 0 && b.len() > 0 && a[0] == b[0] {
        lemma_order_antisymmetric(a.skip(1), b.skip(1));
    }
}

/// Compares two texts by the bytes of their UTF-8 encoding, which is the
/// order of `String`.
pub fn compare(a: &str, b: &str) -> (order: Order)
    ensures
        order == order_of(encode_utf8(a@), encode_utf8(b@)),
{
    let x = a.as_bytes();
    let y = b.as_bytes();
    let mut i: usize = 0;
    assert(x@.skip(0) =~= x@);
    assert(y@.skip(0) =~= y@);
    while i < x.len() && i < y.len()
        invariant
            i <= x.len(),
            i <= y.len(),
            x@ == encode_utf8(a@),
            y@ == encode_utf8(b@),
            order_of(x@, y@) == order_of(x@.skip(i as int), y@.skip(i as int)),
        decreases x.len() - i,
    {
        proof {
            assert(x@.skip(i as int)[0] == x@[i as int]);
            assert(y@.skip(i as int)[0] == y@[i as int]);
        }
        if x[i] < y[i] {
            return Order::Less;
        }
        if x[i] > y[i] {
            return Order::Greater;
        }
        proof {
            assert(x@.skip(i as int).skip(1) =~= x@.skip(i + 1));
            assert(y@.skip(i as int).skip(1) =~= y@.skip(i + 1));
        }
        i += 1;
    }
    if i < y.len() {
        Order::Less
    } else if i < x.len() {
        Order::Greater
    } else {
        Order::Equal
    }
}

/// A line as it is written in its column: after one delimiter for each
/// column to its left that is shown, and followed by a line feed. Nothing
/// when the column itself is not shown.
pub open spec fn column_text(config: &Config, column: Column, line: Seq<char>) -> Seq<char> {
    let first = if config.suppress_unique1 {
        Seq::empty()
    } else {
        config.delimiter@
    };
    let second = if config.suppress_unique2 {
        Seq::empty()
    } else {
        config.delimiter@
    };
    match column {
        Column::One => if config.suppress_unique1 {
            Seq::empty()
        } else {
            line + seq!['\n']
        },
        Column::Two => if config.suppress_unique2 {
            Seq::empty()
        } else {
            first + line + seq!['\n']
        },
        Column::Three => if config.suppress_common {
            Seq::empty()
        } else {
            first + second + line + seq!['\n']
        },
    }
}

/// What is written from line `i` of the first input and line `j` of the
/// second on. The smaller of the two lines is written in the column of its
/// input and passed; equal lines are written once, in the third column,
/// and both are passed; when one input is used up the lines left in the
/// other are written in its column.
pub open spec fn merged(
    config: &Config,
    first: Seq<Seq<char>>,
    second: Seq<Seq<char>>,
    i: nat,
    j: nat,
) -> Seq<char>
    decreases (if i < first.len() {
        first.len() - i
    } else {
        0
    }) + (if j < second.len() {
        second.len() - j
    } else {
        0
    }),
{
    if i >= first.len() && j >= second.len() {
        Seq::empty()
    } else if j >= second.len() {
        column_text(config, Column::One, first[i as int]) + merged(config, first, second, i + 1, j)
    } else if i >= first.len() {
        column_text(config, Column::Two, second[j as int]) + merged(
            config,
            first,
            second,
            i,
            j + 1,
        )
    } else {
        match order_of(encode_utf8(first[i as int]), encode_utf8(second[j as int])) {
            Order::Less => column_text(config, Column::One, first[i as int]) + merged(
                config,
                first,
                second,
                i + 1,
                j,
            ),
            Order::Greater => column_text(config, Column::Two, second[j as int]) + merged(
                config,
                first,
                second,
                i,
                j + 1,
            ),
            Order::Equal => column_text(config, Column::Three, first[i as int]) + merged(
                config,
                first,
                second,
                i + 1,
                j + 1,
            ),
        }
    }
}

/// A line as it is compared and written: in lower case when case is
/// disregarded.
pub open spec fn cased(config: &Config, line: Seq<char>) -> Seq<char> {
    if config.insensitive {
        lowercase_of(line)
    } else {
        line
    }
}

/// The lines of an input as they are compared: those that can be read as
/// text, without their terminators.
pub open spec fn compared_lines(config: &Config, data: Seq<u8>) -> Seq<Seq<char>> {
    Seq::new(
        text_lines(data, false).len(),
        |k: int| cased(config, text_lines(data, false)[k]),
    )
}

/// Writes a line in its column.
pub fn print_column(out: &mut String, config: &Config, line: &str, column: Column)
    ensures
        final(out)@ == old(out)@ + column_text(config, column, line@),
{
    match column {
        Column::One => {
            if !config.suppress_unique1 {
                push_line(out, line);
            }
        },
        Column::Two => {
            if !config.suppress_unique2 {
                if !config.suppress_unique1 {
                    out.append(config.delimiter.as_str());
                }
                push_line(out, line);
            }
        },
        Column::Three => {
            if !config.suppress_common {
                if !config.suppress_unique1 {
                    out.append(config.delimiter.as_str());
                }
                if !config.suppress_unique2 {
                    out.append(config.delimiter.as_str());
                }
                push_line(out, line);
            }
        },
    }
    assert(out@ =~= old(out)@ + column_text(config, column, line@));
}

/// Merges two sequences of lines into three columns.
pub fn merge(config: &Config, first: &Vec<String>, second: &Vec<String>) -> (out: String)
    ensures
        out@ == merged(config, texts(first@), texts(second@), 0, 0),
{
    let mut out = String::new();
    let mut i: usize = 0;
    let mut j: usize = 0;
    let ghost a = texts(first@);
    let ghost b = texts(second@);
    while i < first.len() || j < second.len()
        invariant
            i <= first.len(),
            j <= second.len(),
            a == texts(first@),
            b == texts(second@),
            merged(config, a, b, 0, 0) == out@ + merged(config, a, b, i as nat, j as nat),
        decreases first.len() - i + second.len() - j,
    {
        let ghost before = out@;
        let ghost rest = merged(config, a, b, i as nat, j as nat);
        if j >= second.len() {
            print_column(&mut out, config, first[i].as_str(), Column::One);
            i += 1;
        } else if i >= first.len() {
            print_column(&mut out, config, second[j].as_str(), Column::Two);
            j += 1;
        } else {
            match compare(first[i].as_str(), second[j].as_str()) {
                Order::Less => {
                    print_column(&mut out, config, first[i].as_str(), Column::One);
                    i += 1;
                },
                Order::Greater => {
                    print_column(&mut out, config, second[j].as_str(), Column::Two);
                    j += 1;
                },
                Order::Equal => {
                    print_column(&mut out, config, first[i].as_str(), Column::Three);
                    i += 1;
                    j += 1;
                },
            }
        }
        assert(before + rest =~= out@ + merged(config, a, b, i as nat, j as nat));
    }
    assert(out@ =~= out@ + merged(config, a, b, i as nat, j as nat));
    out
}

/// Reads the lines of an input as they are compared.
fn read_compared(config: &Config, data: &[u8]) -> (lines: Vec<String>)
    ensures
        texts(lines@) == compared_lines(config, data@),
{
    let (plain, _) = read_lines(data, false);
    if !config.insensitive {
        assert(texts(plain@) =~= compared_lines(config, data@));
        return plain;
    }
    let mut lines: Vec<String> = Vec::new();
    let mut k: usize = 0;
    while k < plain.len()
        invariant
            k <= plain.len(),
            config.insensitive,
            texts(plain@) == text_lines(data@, false),
            lines@.len() == k,
            forall|i: int| 0 <= i < k ==> (#[trigger] lines@[i])@ == lowercase_of(plain@[i]@),
        decreases plain.len() - k,
    {
        lines.push(to_lowercase(plain[k].as_str()));
        k += 1;
    }
    proof {
        assert forall|i: int| 0 <= i < lines@.len() implies texts(lines@)[i] == compared_lines(
            config,
            data@,
        )[i] by {
            assert(texts(plain@)[i] == plain@[i]@);
        }
        assert(texts(plain@).len() == plain@.len());
        assert(texts(lines@) =~= compared_lines(config, data@));
    }
    lines
}

/// The message of a run that was refused.
pub open spec fn refusal_text(config: &Config, first: Input, second: Input) -> Seq<char> {
    if config.file1@ == seq!['-'] && config.file2@ == seq!['-'] {
        "Both input files cannot be STDIN (\"-\")"@
    } else if first is Unreadable {
        open_failure(config.file1@, first->Unreadable_0@)
    } else if second is Unreadable {
        open_failure(config.file2@, second->Unreadable_0@)
    } else {
        Seq::empty()
    }
}

/// Whether a run is refused: both inputs are the standard input, or one
/// of them could not be opened.
pub open spec fn refused(config: &Config, first: Input, second: Input) -> bool {
    ||| config.file1@ == seq!['-'] && config.file2@ == seq!['-']
    ||| first is Unreadable
    ||| second is Unreadable
}

/// Compares two inputs and writes their lines in three columns: lines
/// only in the first, lines only in the second, and lines in both.
///
/// `first` and `second` are what came of opening and reading `file1` and
/// `file2`. Of each input the lines before the first one that is no text
/// are compared.
pub fn run(config: &Config, first: &Input, second: &Input) -> (r: Result<String, String>)
    ensures
        refused(config, *first, *second) ==> r is Err && r->Err_0@ == refusal_text(
            config,
            *first,
            *second,
        ),
        !refused(config, *first, *second) ==> r is Ok && r->Ok_0@ == merged(
            config,
            compared_lines(config, first->Content_0@),
            compared_lines(config, second->Content_0@),
            0,
            0,
        ),
{
    proof {
        reveal_strlit("-");
        assert("-"@ =~= seq!['-']);
    }
    if same_text(config.file1.as_str(), "-") && same_text(config.file2.as_str(), "-") {
        return Err(String::from_str("Both input files cannot be STDIN (\"-\")"));
    }
    let one = match first {
        Input::Unreadable(reason) => {
            return Err(describe_open_failure(&config.file1, reason));
        },
        Input::Content(data) => read_compared(config, data.as_slice()),
    };
    let two = match second {
        Input::Unreadable(reason) => {
            return Err(describe_open_failure(&config.file2, reason));
        },
        Input::Content(data) => read_compared(config, data.as_slice()),
    };
    Ok(merge(config, &one, &two))
}

} // verus!
