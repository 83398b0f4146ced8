//! Concatenating inputs with optional line numbers, as `cat` does.

use crate::input::{
    first_failing, lemma_first_failing_stays, supplied, Input, ReadError, Report,
};
use crate::lines::{line_count, read_lines, readable_lines, text_lines};
use crate::text::{
    align_right, decimal_digits, is_white_space, is_whitespace, pad_left, texts, u64_to_string,
};
use vstd::prelude::*;
use vstd::std_specs::iter::IteratorSpec;
use vstd::string::*;

verus! {

/// The settings of one invocation.
#[derive(Debug)]
pub struct Args {
    /// The inputs, by name.
    pub files: Vec<String>,
    /// Number every line.
    pub number_lines: bool,
    /// Number the lines that are not blank.
    pub number_non_blank_lines: bool,
}

/// A line is blank when it holds nothing but white space.
pub open spec fn is_blank(text: Seq<char>) -> bool {
    forall|i: int| 0 <= i < text.len() ==> is_white_space(#[trigger] text[i])
}

/// How many of the first `k` lines are not blank.
pub open spec fn non_blank_before(lines: Seq<Seq<char>>, k: nat) -> nat
    decreases k,
{
    if k == 0 {
        0
    } else {
        non_blank_before(lines, (k - 1) as nat) + if is_blank(lines[k - 1]) {
            0nat
        } else {
            1nat
        }
    }
}

/// A line number as it is written: right-aligned in six columns and
/// followed by a tab.
pub open spec fn number_prefix(n: nat) -> Seq<char> {
    pad_left(decimal_digits(n), 6) + seq!['\t']
}

/// Line `i` of an input as it is written. When every line is numbered the
/// number is the position of the line, counted from one; when only the
/// lines that are not blank are numbered, blank lines are written without
/// a number and are not counted.
pub open spec fn shown_line(args: &Args, lines: Seq<Seq<char>>, i: int) -> Seq<char> {
    (if args.number_lines {
        number_prefix((i + 1) as nat)
    } else if args.number_non_blank_lines && !is_blank(lines[i]) {
        number_prefix(non_blank_before(lines, i as nat) + 1)
    } else {
        Seq::empty()
    }) + lines[i] + seq!['\n']
}

/// The first `k` lines of an input as they are written.
pub open spec fn shown_lines(args: &Args, lines: Seq<Seq<char>>, k: nat) -> Seq<char>
    decreases k,
{
    if k == 0 {
        Seq::empty()
    } else {
        shown_lines(args, lines, (k - 1) as nat) + shown_line(args, lines, k - 1)
    }
}

/// Tells whether a line is blank.
pub fn blank(text: &str) -> (r: bool)
    ensures
        r == is_blank(text@),
{
    let mut it = text.chars();
    let ghost mut seen: int = 0;
    proof {
        axiom_spec_iter(text);
    }
    loop
        invariant
            it.obeys_prophetic_iter_laws(),
            0 <= seen <= text@.len(),
            text@ == text@.take(seen) + it.remaining(),
            forall|i: int| 0 <= i < seen ==> is_white_space(#[trigger] text@[i]),
        decreases text@.len() - seen,
    {
        let ghost before = it;
        let next = it.next();
        proof {
            next_postcondition(&before, &it, next);
        }
        match next {
            Some(c) => {
                proof {
                    assert(text@.len() == seen + before.remaining().len());
                    assert(text@[seen] == before.remaining()[0]);
                    assert(text@.take(seen + 1) + it.remaining() =~= text@);
                }
                if !is_whitespace(c) {
                    return false;
                }
                proof {
                    seen = seen + 1;
                }
            },
            None => {
                proof {
                    assert(text@.take(seen) =~= text@);
                }
                return true;
            },
        }
    }
}

/// Writes the line number `n`.
fn push_number(out: &mut String, n: usize)
    ensures
        final(out)@ == old(out)@ + number_prefix(n as nat),
{
    proof {
        reveal_strlit("\t");
    }
    out.append(align_right(u64_to_string(n as u64).as_str(), 6).as_str());
    out.append("\t");
    assert(out@ =~= old(out)@ + number_prefix(n as nat));
}

/// Writes the lines of one input, numbered as the settings ask.
pub fn number_lines(args: &Args, lines: &Vec<String>) -> (out: String)
    ensures
        out@ == shown_lines(args, texts(lines@), lines@.len()),
{
    let mut out = String::new();
    let mut non_blank: usize = 0;
    let mut i: usize = 0;
    while i < lines.len()
        invariant
            i <= lines.len(),
            non_blank == non_blank_before(texts(lines@), i as nat),
            non_blank <= i,
            out@ == shown_lines(args, texts(lines@), i as nat),
        decreases lines.len() - i,
    {
        let ghost before = out@;
        let line: &str = lines[i].as_str();
        assert(texts(lines@)[i as int] == line@);
        let is_blank_line = blank(line);
        if args.number_lines {
            push_number(&mut out, i + 1);
        } else if args.number_non_blank_lines && !is_blank_line {
            push_number(&mut out, non_blank + 1);
        }
        if !is_blank_line {
            non_blank += 1;
        }
        proof {
            reveal_strlit("\n");
        }
        out.append(line);
        out.append("\n");
        assert(out@ =~= before + shown_line(args, texts(lines@), i as int));
        i += 1;
    }
    out
}

/// An input fails when one of its lines is no text.
pub open spec fn fails() -> spec_fn(Input) -> bool {
    |input: Input|
        match input {
            Input::Content(data) => readable_lines(data@, false) < line_count(data@),
            Input::Unreadable(_) => false,
        }
}

/// How many inputs are processed: all that are looked at, or those up to
/// and including the first that holds a line that is no text.
pub open spec fn processed(args: &Args, inputs: Seq<Input>) -> nat {
    match first_failing(inputs, supplied(args.files@, inputs), fails()) {
        Some(i) => i + 1,
        None => supplied(args.files@, inputs),
    }
}

/// The diagnostic for an input that could not be opened.
pub open spec fn open_failure(name: Seq<char>, reason: Seq<char>) -> Seq<char> {
    "Failed to open "@ + name + seq![':', ' '] + reason
}

/// What the first `n` inputs contribute to the output: the lines of each
/// readable input that are text, numbering restarted for each input.
pub open spec fn stdout_of(args: &Args, inputs: Seq<Input>, n: nat) -> Seq<char>
    decreases n,
{
    if n == 0 {
        Seq::empty()
    } else {
        stdout_of(args, inputs, (n - 1) as nat) + match inputs[n - 1] {
            Input::Content(data) => shown_lines(
                args,
                text_lines(data@, false),
                readable_lines(data@, false),
            ),
            Input::Unreadable(_) => Seq::empty(),
        }
    }
}

/// The diagnostics for the first `n` inputs.
pub open spec fn stderr_of(args: &Args, inputs: Seq<Input>, n: nat) -> Seq<Seq<char>>
    decreases n,
{
    if n == 0 {
        Seq::empty()
    } else {
        stderr_of(args, inputs, (n - 1) as nat) + match inputs[n - 1] {
            Input::Content(_) => Seq::empty(),
            Input::Unreadable(reason) => seq![open_failure(args.files[n - 1]@, reason@)],
        }
    }
}

/// Writes the inputs one after another, numbering lines as the settings
/// ask.
///
/// `inputs[i]` is what came of opening and reading `args.files[i]`. An
/// input that could not be opened yields one diagnostic; the others are
/// still written. A line that is no text ends the run after the lines
/// before it have been written.
pub fn run(args: &Args, inputs: &Vec<Input>) -> (report: Report)
    ensures
        report.stdout@ == stdout_of(args, inputs@, processed(args, inputs@)),
        texts(report.stderr@) == stderr_of(args, inputs@, processed(args, inputs@)),
        report.failed == match first_failing(inputs@, supplied(args.files@, inputs@), fails()) {
            Some(_) => Some(ReadError::InvalidUtf8),
            None => None,
        },
{
    let wanted: usize = if inputs.len() <= args.files.len() {
        inputs.len()
    } else {
        args.files.len()
    };
    let mut stdout = String::new();
    let mut stderr: Vec<String> = Vec::new();
    let mut i: usize = 0;
    while i < wanted
        invariant
            i <= wanted,
            wanted == supplied(args.files@, inputs@),
            first_failing(inputs@, i as nat, fails()) is None,
            stdout@ == stdout_of(args, inputs@, i as nat),
            texts(stderr@) == stderr_of(args, inputs@, i as nat),
        decreases wanted - i,
    {
        match &inputs[i] {
            Input::Unreadable(reason) => {
                proof {
                    reveal_strlit(": ");
                }
                let mut message = String::from_str("Failed to open ");
                message.append(args.files[i].as_str());
                message.append(": ");
                message.append(reason.as_str());
                assert(message@ =~= open_failure(args.files[i as int]@, reason@));
                let ghost before = stderr@;
                stderr.push(message);
                assert(texts(stderr@) =~= texts(before) + seq![message@]);
                assert(stdout@ =~= stdout@ + Seq::<char>::empty());
            },
            Input::Content(data) => {
                let (lines, failed) = read_lines(data.as_slice(), false);
                assert(lines@.len() == texts(lines@).len());
                stdout.append(number_lines(args, &lines).as_str());
                assert(texts(stderr@) =~= texts(stderr@) + Seq::<Seq<char>>::empty());
                if failed.is_some() {
                    proof {
                        lemma_first_failing_stays(inputs@, (i + 1) as nat, wanted as nat, fails());
                    }
                    return Report { stdout, stderr, failed };
                }
            },
        }
        i += 1;
    }
    Report { stdout, stderr, failed: None }
}

} // verus!
