//! Selecting fields, bytes or characters by position, as `cut` does.

use crate::decimal::{decimal_unsigned, parse_unsigned};
use crate::pattern::{captures, regex_groups};
use crate::text::{decimal_digits, first_char, split, split_on, texts, u64_to_string};
use std::ops::Range;
use vstd::prelude::*;
use vstd::string::*;
use vstd::utf8::encode_utf8;

verus! {

/// The three ways to say what is selected; exactly one is to be given.
#[derive(Debug)]
pub struct ArgsExtract {
    /// The selected fields.
    pub fields: Option<String>,
    /// The selected bytes.
    pub bytes: Option<String>,
    /// The selected characters.
    pub chars: Option<String>,
}

/// The settings of one invocation.
#[derive(Debug)]
pub struct Config {
    /// The inputs, by name.
    pub files: Vec<String>,
    /// What separates fields: one byte.
    pub delim: String,
    /// What is selected.
    pub extract: ArgsExtract,
}

/// What is selected from each line, by zero-based half-open ranges.
#[derive(Debug, PartialEq, Eq)]
pub enum Extract {
    Fields(Vec<Range<usize>>),
    Bytes(Vec<Range<usize>>),
    Chars(Vec<Range<usize>>),
}

/// Why the settings were rejected.
#[derive(Debug, PartialEq, Eq)]
pub enum CutError {
    /// A list value is no position and no range of positions.
    IllegalListValue(String),
    /// A range does not end after it begins; the ends are given as written.
    RangeOrder(usize, usize),
    /// The delimiter is not a single byte.
    BadDelimiter(String),
}

/// A [`CutError`] as a value of specifications.
pub enum CutFault {
    IllegalListValue(Seq<char>),
    RangeOrder(nat, nat),
    BadDelimiter(Seq<char>),
}

impl View for CutError {
    type V = CutFault;

    open spec fn view(&self) -> CutFault {
        match self {
            CutError::IllegalListValue(value) => CutFault::IllegalListValue(value@),
            CutError::RangeOrder(first, second) => CutFault::RangeOrder(
                *first as nat,
                *second as nat,
            ),
            CutError::BadDelimiter(delim) => CutFault::BadDelimiter(delim@),
        }
    }
}

/// The message of a rejection.
pub open spec fn fault_message(fault: CutFault) -> Seq<char> {
    match fault {
        CutFault::IllegalListValue(value) => "illegal list value: \""@ + value + "\""@,
        CutFault::RangeOrder(first, second) => "First number in range ("@ + decimal_digits(first)
            + ") must be lower than second number ("@ + decimal_digits(second) + ")"@,
        CutFault::BadDelimiter(delim) => "--delim \""@ + delim + "\" must be a single byte"@,
    }
}

impl CutError {
    /// The message shown to the user.
    pub fn to_string(&self) -> (message: String)
        ensures
            message@ == fault_message(self@),
    {
        match self {
            CutError::IllegalListValue(value) => {
                let mut message = String::from_str("illegal list value: \"");
                message.append(value.as_str());
                message.append("\"");
                message
            },
            CutError::RangeOrder(first, second) => {
                let mut message = String::from_str("First number in range (");
                message.append(u64_to_string(*first as u64).as_str());
                message.append(") must be lower than second number (");
                message.append(u64_to_string(*second as u64).as_str());
                message.append(")");
                message
            },
            CutError::BadDelimiter(delim) => {
                let mut message = String::from_str("--delim \"");
                message.append(delim.as_str());
                message.append("\" must be a single byte");
                message
            },
        }
    }
}

/// The pattern of a range of positions: two runs of digits with a dash
/// between them.
pub const RANGE_PATTERN: &'static str = "^(\\d+)-(\\d+)$";

/// The zero-based index that a position denotes. Positions are written
/// from one, in decimal, without a sign.
pub open spec fn index_of(input: Seq<char>) -> Option<nat> {
    if input.len() > 0 && input[0] == '+' {
        None
    } else {
        match decimal_unsigned(input, usize::MAX as nat) {
            Some(n) => if n > 0 {
                Some((n - 1) as nat)
            } else {
                None
            },
            None => None,
        }
    }
}

/// The two ends of a range as they are written, when `value` is shaped
/// like a range.
pub open spec fn range_ends(value: Seq<char>) -> Option<(Seq<char>, Seq<char>)> {
    match regex_groups(RANGE_PATTERN@, value) {
        Some(groups) => if groups.len() == 3 && groups[1] is Some && groups[2] is Some {
            Some((groups[1]->0, groups[2]->0))
        } else {
            None
        },
        None => None,
    }
}

/// The half-open range of indices that the ends of a range denote. Each
/// end must be a position, and the first must come before the second.
pub open spec fn range_of(first: Seq<char>, second: Seq<char>) -> Result<(nat, nat), CutFault> {
    match index_of(first) {
        None => Err(CutFault::IllegalListValue(first)),
        Some(from) => match index_of(second) {
            None => Err(CutFault::IllegalListValue(second)),
            Some(to) => if from >= to {
                Err(CutFault::RangeOrder(from + 1, to + 1))
            } else {
                Ok((from, to + 1))
            },
        },
    }
}

/// The half-open range of indices that one list value denotes: a single
/// position, or a range of positions with both ends included.
pub open spec fn position_of(value: Seq<char>) -> Result<(nat, nat), CutFault> {
    match index_of(value) {
        Some(n) => Ok((n, n + 1)),
        None => match range_ends(value) {
            Some((first, second)) => range_of(first, second),
            None => Err(CutFault::IllegalListValue(value)),
        },
    }
}

/// The ranges of the first `k` list values, or the fault of the first
/// value that is rejected.
pub open spec fn positions_of(values: Seq<Seq<char>>, k: nat) -> Result<Seq<(nat, nat)>, CutFault>
    decreases k,
{
    if k == 0 {
        Ok(Seq::empty())
    } else {
        match positions_of(values, (k - 1) as nat) {
            Err(fault) => Err(fault),
            Ok(before) => match position_of(values[k - 1]) {
                Err(fault) => Err(fault),
                Ok(range) => Ok(before.push(range)),
            },
        }
    }
}

/// What a list of positions denotes: its values are separated by commas
/// and keep their order.
pub open spec fn parsed_positions(list: Seq<char>) -> Result<Seq<(nat, nat)>, CutFault> {
    positions_of(split_on(list, ','), split_on(list, ',').len())
}

/// Ranges as pairs of numbers.
pub open spec fn ranges(list: Seq<Range<usize>>) -> Seq<(nat, nat)> {
    Seq::new(list.len(), |i: int| (list[i].start as nat, list[i].end as nat))
}

/// Parses one position.
pub fn parse_index(input: &str) -> (r: Result<usize, CutError>)
    ensures
        index_of(input@) matches Some(n) ==> r == Ok::<usize, CutError>(n as usize) && n
            < usize::MAX,
        index_of(input@) is None ==> r is Err && r->Err_0@ == CutFault::IllegalListValue(input@),
{
    let plus = match first_char(input) {
        Some(c) => c == '+',
        None => false,
    };
    if !plus {
        match parse_unsigned(input, usize::MAX as u64) {
            Some(n) => {
                if n > 0 {
                    return Ok((n - 1) as usize);
                }
            },
            None => {},
        }
    }
    Err(CutError::IllegalListValue(String::from_str(input)))
}

/// Builds the range between two ends as they are written.
pub fn parse_range(first: &str, second: &str) -> (r: Result<Range<usize>, CutError>)
    ensures
        range_of(first@, second@) matches Ok(range) ==> r is Ok && r->Ok_0.start == range.0
            && r->Ok_0.end == range.1,
        range_of(first@, second@) matches Err(fault) ==> r is Err && r->Err_0@ == fault,
{
    let from = match parse_index(first) {
        Ok(n) => n,
        Err(e) => {
            return Err(e);
        },
    };
    let to = match parse_index(second) {
        Ok(n) => n,
        Err(e) => {
            return Err(e);
        },
    };
    if from >= to {
        return Err(CutError::RangeOrder(from + 1, to + 1));
    }
    Ok(from..to + 1)
}

/// Parses one list value.
pub fn parse_value(value: &str) -> (r: Result<Range<usize>, CutError>)
    ensures
        position_of(value@) matches Ok(range) ==> r is Ok && r->Ok_0.start == range.0
            && r->Ok_0.end == range.1,
        position_of(value@) matches Err(fault) ==> r is Err && r->Err_0@ == fault,
{
    match parse_index(value) {
        Ok(n) => {
            return Ok(n..n + 1);
        },
        Err(_) => {},
    }
    match captures(RANGE_PATTERN, value) {
        Some(groups) => {
            if groups.len() == 3 {
                assert(groups.deep_view()[1] == groups@[1].deep_view());
                assert(groups.deep_view()[2] == groups@[2].deep_view());
                match (&groups[1], &groups[2]) {
                    (Some(first), Some(second)) => {
                        return parse_range(first.as_str(), second.as_str());
                    },
                    _ => {},
                }
            }
        },
        None => {},
    }
    Err(CutError::IllegalListValue(String::from_str(value)))
}

/// Parses a list of positions and ranges of positions, such as `1,7,3-5`,
/// into zero-based half-open ranges, in the order in which they are
/// written. The first value that is rejected decides the error.
pub fn parse_pos(range: String) -> (r: Result<Vec<Range<usize>>, CutError>)
    ensures
        parsed_positions(range@) matches Ok(list) ==> r is Ok && ranges(r->Ok_0@) == list,
        parsed_positions(range@) matches Err(fault) ==> r is Err && r->Err_0@ == fault,
{
    let values = split(range.as_str(), ',');
    let mut list: Vec<Range<usize>> = Vec::new();
    let mut k: usize = 0;
    assert(ranges(list@) =~= Seq::<(nat, nat)>::empty());
    while k < values.len()
        invariant
            k <= values.len(),
            texts(values@) == split_on(range@, ','),
            positions_of(texts(values@), k as nat) is Ok,
            positions_of(texts(values@), k as nat)->Ok_0 == ranges(list@),
        decreases values.len() - k,
    {
        assert(texts(values@)[k as int] == values@[k as int]@);
        match parse_value(values[k].as_str()) {
            Ok(range) => {
                let ghost before = list@;
                list.push(range);
                assert(ranges(list@) =~= ranges(before).push((range.start as nat, range.end as nat)));
            },
            Err(e) => {
                proof {
                    lemma_fault_stays(texts(values@), (k + 1) as nat, values@.len());
                }
                return Err(e);
            },
        }
        k += 1;
    }
    Ok(list)
}

/// The fault of the first value that is rejected stays the fault of the
/// list.
proof fn lemma_fault_stays(values: Seq<Seq<char>>, m: nat, n: nat)
    requires
        m <= n,
        positions_of(values, m) is Err,
    ensures
        positions_of(values, n) == positions_of(values, m),
    decreases n,
{
    if m < n {
        lemma_fault_stays(values, m, (n - 1) as nat);
    }
}

/// The list that the settings give: of fields if there is one, else of
/// bytes, else of characters.
pub open spec fn chosen_list(extract: &ArgsExtract) -> Seq<char> {
    if extract.fields is Some {
        extract.fields->0@
    } else if extract.bytes is Some {
        extract.bytes->0@
    } else {
        extract.chars->0@
    }
}

/// Checks the settings: the delimiter must be a single byte, and the list
/// of what is selected must parse. Gives the delimiter and the selection.
pub fn run(config: &Config) -> (r: Result<(u8, Extract), CutError>)
    requires
        config.extract.fields is Some || config.extract.bytes is Some || config.extract.chars
            is Some,
    ensures
        encode_utf8(config.delim@).len() != 1 ==> r is Err && r->Err_0@ == CutFault::BadDelimiter(
            config.delim@,
        ),
        encode_utf8(config.delim@).len() == 1 ==> match parsed_positions(
            chosen_list(&config.extract),
        ) {
            Err(fault) => r is Err && r->Err_0@ == fault,
            Ok(list) => r is Ok && r->Ok_0.0 == encode_utf8(config.delim@)[0] && (
            if config.extract.fields is Some {
                r->Ok_0.1 is Fields && ranges(r->Ok_0.1->Fields_0@) == list
            } else if config.extract.bytes is Some {
                r->Ok_0.1 is Bytes && ranges(r->Ok_0.1->Bytes_0@) == list
            } else {
                r->Ok_0.1 is Chars && ranges(r->Ok_0.1->Chars_0@) == list
            }),
        },
{
    let delim_bytes = config.delim.as_str().as_bytes();
    if delim_bytes.len() != 1 {
        return Err(CutError::BadDelimiter(config.delim.clone()));
    }
    let delim: u8 = delim_bytes[0];
    match &config.extract.fields {
        Some(list) => match parse_pos(list.clone()) {
            Ok(fields) => Ok((delim, Extract::Fields(fields))),
            Err(e) => Err(e),
        },
        None => match &config.extract.bytes {
            Some(list) => match parse_pos(list.clone()) {
                Ok(bytes) => Ok((delim, Extract::Bytes(bytes))),
                Err(e) => Err(e),
            },
            None => match &config.extract.chars {
                Some(list) => match parse_pos(list.clone()) {
                    Ok(chars) => Ok((delim, Extract::Chars(chars))),
                    Err(e) => Err(e),
                },
                None => {
                    assert(false);
                    Err(CutError::BadDelimiter(String::new()))
                },
            },
        },
    }
}

} // verus!
