//! Collapsing runs of equal lines, as `uniq` does.

use crate::input::{open_failure, describe_open_failure, Input, ReadError, Report};
use crate::lines::{line_count, read_lines, readable_lines, text_lines};
use crate::text::{
    align_right, decimal_digits, pad_left, same_text, texts, trim_end, trimmed_end, u64_to_string,
};
use vstd::prelude::*;
use vstd::string::*;

verus! {

/// The settings of one invocation.
#[derive(Debug)]
pub struct Config {
    /// The input, by name.
    pub in_file: String,
    /// Where the output goes, when not to the standard output stream.
    pub out_file: Option<String>,
    /// Precede each line by the number of times it occurred.
    pub count: bool,
}

/// Where a pass over the lines stands: the first line of the current run,
/// how many lines the run has so far, and what has been written.
pub struct Progress {
    pub prev: Seq<char>,
    pub count: nat,
    pub out: Seq<char>,
}

/// Two lines belong to one run when they are equal but for white space at
/// their ends.
pub open spec fn same_run(a: Seq<char>, b: Seq<char>) -> bool {
    trimmed_end(a) == trimmed_end(b)
}

/// A run as it is written: its first line, preceded on request by the
/// length of the run, right-aligned in four columns, and a space.
pub open spec fn entry(config: &Config, line: Seq<char>, count: nat) -> Seq<char> {
    if config.count {
        pad_left(decimal_digits(count), 4) + seq![' '] + line
    } else {
        line
    }
}

/// The state before the first line: an empty run of an empty line.
pub open spec fn start() -> Progress {
    Progress { prev: Seq::empty(), count: 0, out: Seq::empty() }
}

/// Takes one line in. A line that does not belong to the current run ends
/// it: the run is written, unless it is empty, and the line begins the next
/// run. A line that belongs to the current run only makes it longer.
pub open spec fn step(config: &Config, at: Progress, line: Seq<char>) -> Progress {
    if same_run(line, at.prev) {
        Progress { prev: at.prev, count: at.count + 1, out: at.out }
    } else if at.count > 0 {
        Progress { prev: line, count: 1, out: at.out + entry(config, at.prev, at.count) }
    } else {
        Progress { prev: line, count: 1, out: at.out }
    }
}

/// The state after the first `k` lines.
pub open spec fn after(config: &Config, lines: Seq<Seq<char>>, k: nat) -> Progress
    decreases k,
{
    if k == 0 {
        start()
    } else {
        step(config, after(config, lines, (k - 1) as nat), lines[k - 1])
    }
}

/// What has been written once the end of the input is reached: the end
/// acts as an empty line, so a last run of blank lines is never written.
pub open spec fn finished(config: &Config, lines: Seq<Seq<char>>) -> Seq<char> {
    step(config, after(config, lines, lines.len()), Seq::empty()).out
}

/// What one input yields: the runs of all its lines, or, when a line is no
/// text, the runs that ended before that line.
pub open spec fn output_of(config: &Config, data: Seq<u8>) -> Seq<char> {
    if readable_lines(data, true) < line_count(data) {
        after(config, text_lines(data, true), readable_lines(data, true)).out
    } else {
        finished(config, text_lines(data, true))
    }
}

/// Writes one run.
fn push_entry(out: &mut String, config: &Config, line: &str, count: usize)
    ensures
        final(out)@ == old(out)@ + entry(config, line@, count as nat),
{
    if config.count {
        proof {
            reveal_strlit(" ");
        }
        out.append(align_right(u64_to_string(count as u64).as_str(), 4).as_str());
        out.append(" ");
    }
    out.append(line);
    assert(out@ =~= old(out)@ + entry(config, line@, count as nat));
}

/// Collapses the runs of a sequence of lines, which keep their
/// terminators. With `at_end` the end of the input is taken in after the
/// last line.
pub fn collapse(config: &Config, lines: &Vec<String>, at_end: bool) -> (out: String)
    ensures
        out@ == if at_end {
            finished(config, texts(lines@))
        } else {
            after(config, texts(lines@), lines@.len()).out
        },
{
    let mut out = String::new();
    let mut prev: usize = 0;
    let mut has_prev: bool = false;
    let mut count: usize = 0;
    let mut i: usize = 0;
    while i < lines.len()
        invariant
            i <= lines.len(),
            count <= i,
            has_prev ==> prev < i,
            after(config, texts(lines@), i as nat).prev == if has_prev {
                lines@[prev as int]@
            } else {
                Seq::<char>::empty()
            },
            after(config, texts(lines@), i as nat).count == count,
            after(config, texts(lines@), i as nat).out == out@,
        decreases lines.len() - i,
    {
        let line: &str = lines[i].as_str();
        assert(texts(lines@)[i as int] == line@);
        let first: &str = if has_prev {
            lines[prev].as_str()
        } else {
            proof {
                reveal_strlit("");
                assert(""@ =~= Seq::<char>::empty());
            }
            ""
        };
        if !same_text(trim_end(line), trim_end(first)) {
            if count > 0 {
                push_entry(&mut out, config, first, count);
            }
            count = 1;
            prev = i;
            has_prev = true;
        } else {
            count += 1;
        }
        i += 1;
    }
    if at_end {
        let first: &str = if has_prev {
            lines[prev].as_str()
        } else {
            proof {
                reveal_strlit("");
                assert(""@ =~= Seq::<char>::empty());
            }
            ""
        };
        proof {
            reveal_strlit("");
            assert(""@ =~= Seq::<char>::empty());
        }
        if !same_text(trim_end(""), trim_end(first)) && count > 0 {
            push_entry(&mut out, config, first, count);
        }
    }
    out
}

/// Collapses the runs of equal lines of one input.
///
/// An input that could not be opened is reported as an error that names
/// it. A line that is no text ends the run after the runs that ended
/// before it have been written.
pub fn run(config: &Config, input: &Input) -> (r: Result<Report, String>)
    ensures
        input matches Input::Unreadable(reason) ==> r is Err && r->Err_0@ == open_failure(
            config.in_file@,
            reason@,
        ),
        input matches Input::Content(data) ==> r is Ok && r->Ok_0.stdout@ == output_of(
            config,
            data@,
        ) && r->Ok_0.stderr@.len() == 0 && r->Ok_0.failed == if readable_lines(data@, true)
            < line_count(data@) {
            Some(ReadError::InvalidUtf8)
        } else {
            None
        },
{
    match input {
        Input::Unreadable(reason) => Err(describe_open_failure(&config.in_file, reason)),
        Input::Content(data) => {
            let (lines, failed) = read_lines(data.as_slice(), true);
            assert(texts(lines@).len() == lines@.len());
            let stdout = collapse(config, &lines, failed.is_none());
            Ok(Report { stdout, stderr: Vec::new(), failed })
        },
    }
}

} // verus!
