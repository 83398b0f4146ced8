//! Showing the first lines or bytes of each input, as `head` does.

use crate::input::{
    describe_open_failure, first_failing, header_text, lemma_first_failing_stays, make_header,
    open_failure, supplied, Input, ReadError, Report,
};
use crate::lines::{first_text_lines, lines_wanted, read_first_lines, readable_among};
use crate::text::{concat_lines, concat_texts, show_bytes, shown_text, texts};
use vstd::prelude::*;
use vstd::slice::slice_subrange;
use vstd::string::*;

verus! {

/// The settings of one invocation.
#[derive(Debug)]
pub struct Config {
    /// The inputs, by name.
    pub files: Vec<String>,
    /// How many lines to show, when no number of bytes is given.
    pub lines: u64,
    /// How many bytes to show; when present it selects byte mode.
    pub bytes: Option<usize>,
}

/// The first `count` bytes of `data`, or all of them when there are fewer.
pub open spec fn first_bytes(data: Seq<u8>, count: nat) -> Seq<u8> {
    if count <= data.len() {
        data.take(count as int)
    } else {
        data
    }
}

/// What is shown of one input: in byte mode its first bytes, decoded
/// leniently; else its first lines that are text, terminators kept.
pub open spec fn body_text(config: &Config, data: Seq<u8>) -> Seq<char> {
    match config.bytes {
        Some(count) => shown_text(first_bytes(data, count as nat)),
        None => concat_texts(first_text_lines(data, config.lines as nat, true)),
    }
}

/// Everything that the readable input at `index` contributes to the
/// output: a header when several inputs are named, then what is shown of
/// the input. An empty line comes before the header of every input but
/// the first.
pub open spec fn file_output(config: &Config, index: nat, data: Seq<u8>) -> Seq<char> {
    (if config.files.len() > 1 {
        header_text(config.files[index as int]@, index > 0)
    } else {
        Seq::empty()
    }) + body_text(config, data)
}

/// In line mode an input fails when one of the lines asked of it is no
/// text.
pub open spec fn fails(config: &Config) -> spec_fn(Input) -> bool {
    |input: Input|
        match input {
            Input::Content(data) => config.bytes is None && readable_among(
                data@,
                lines_wanted(data@, config.lines as nat),
                true,
            ) < lines_wanted(data@, config.lines as nat),
            Input::Unreadable(_) => false,
        }
}

/// How many inputs are processed: all that are looked at, or those up to
/// and including the first that fails.
pub open spec fn processed(config: &Config, inputs: Seq<Input>) -> nat {
    match first_failing(inputs, supplied(config.files@, inputs), fails(config)) {
        Some(i) => i + 1,
        None => supplied(config.files@, inputs),
    }
}

/// The output after the first `n` inputs.
pub open spec fn stdout_of(config: &Config, inputs: Seq<Input>, n: nat) -> Seq<char>
    decreases n,
{
    if n == 0 {
        Seq::empty()
    } else {
        stdout_of(config, inputs, (n - 1) as nat) + match inputs[n - 1] {
            Input::Content(data) => file_output(config, (n - 1) as nat, data@),
            Input::Unreadable(_) => Seq::empty(),
        }
    }
}

/// The diagnostics after the first `n` inputs.
pub open spec fn stderr_of(config: &Config, inputs: Seq<Input>, n: nat) -> Seq<Seq<char>>
    decreases n,
{
    if n == 0 {
        Seq::empty()
    } else {
        stderr_of(config, inputs, (n - 1) as nat) + match inputs[n - 1] {
            Input::Content(_) => Seq::empty(),
            Input::Unreadable(reason) => seq![open_failure(config.files[n - 1]@, reason@)],
        }
    }
}

/// Shows the beginning of each input in order.
///
/// `inputs[i]` is what came of opening and reading `config.files[i]`. An
/// input that could not be opened yields one diagnostic; the others are
/// still shown. In line mode a line that is no text ends the run after
/// the lines before it have been written.
pub fn run(config: &Config, inputs: &Vec<Input>) -> (report: Report)
    ensures
        report.stdout@ == stdout_of(config, inputs@, processed(config, inputs@)),
        texts(report.stderr@) == stderr_of(config, inputs@, processed(config, inputs@)),
        report.failed == match first_failing(
            inputs@,
            supplied(config.files@, inputs@),
            fails(config),
        ) {
            Some(_) => Some(ReadError::InvalidUtf8),
            None => None,
        },
{
    let wanted: usize = if inputs.len() <= config.files.len() {
        inputs.len()
    } else {
        config.files.len()
    };
    let headers: bool = config.files.len() > 1;
    let mut stdout = String::new();
    let mut stderr: Vec<String> = Vec::new();
    let mut i: usize = 0;
    while i < wanted
        invariant
            i <= wanted,
            wanted == supplied(config.files@, inputs@),
            headers == (config.files.len() > 1),
            first_failing(inputs@, i as nat, fails(config)) is None,
            stdout@ == stdout_of(config, inputs@, i as nat),
            texts(stderr@) == stderr_of(config, inputs@, i as nat),
        decreases wanted - i,
    {
        let name: &String = &config.files[i];
        match &inputs[i] {
            Input::Unreadable(reason) => {
                let message = describe_open_failure(name, reason);
                let ghost before = stderr@;
                stderr.push(message);
                assert(texts(stderr@) =~= texts(before) + seq![message@]);
                assert(stdout@ =~= stdout@ + Seq::<char>::empty());
            },
            Input::Content(data) => {
                let ghost before = stdout@;
                if headers {
                    stdout.append(make_header(name.as_str(), i > 0).as_str());
                }
                assert(texts(stderr@) =~= texts(stderr@) + Seq::<Seq<char>>::empty());
                match config.bytes {
                    Some(count) => {
                        let shown: usize = if count <= data.len() {
                            count
                        } else {
                            data.len()
                        };
                        let first = slice_subrange(data.as_slice(), 0, shown);
                        assert(first@ =~= first_bytes(data@, count as nat));
                        stdout.append(show_bytes(first).as_str());
                        assert(stdout@ =~= before + file_output(config, i as nat, data@));
                    },
                    None => {
                        let (lines, failed) = read_first_lines(data.as_slice(), config.lines, true);
                        stdout.append(concat_lines(&lines).as_str());
                        assert(stdout@ =~= before + file_output(config, i as nat, data@));
                        if failed.is_some() {
                            proof {
                                lemma_first_failing_stays(
                                    inputs@,
                                    (i + 1) as nat,
                                    wanted as nat,
                                    fails(config),
                                );
                            }
                            return Report { stdout, stderr, failed };
                        }
                    },
                }
            },
        }
        i += 1;
    }
    Report { stdout, stderr, failed: None }
}

} // verus!
