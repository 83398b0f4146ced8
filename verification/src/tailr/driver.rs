//! One invocation over a list of inputs: which headers, which selection
//! and which diagnostics come out, in order.

use crate::input::{
    describe_open_failure, header_text, make_header, open_failure, supplied, Input,
};
use crate::tailr::bytes::{print_bytes, selected_bytes};
use crate::lines::newline_count;
use crate::tailr::extent::count_lines_bytes;
use crate::tailr::lines::{print_lines, selected_lines};
use crate::tailr::offset::TakeValue;
use crate::text::{shown_text, texts};
use vstd::prelude::*;
use vstd::string::*;
use vstd::utf8::encode_utf8;

verus! {

/// The settings of one invocation, fixed before any input is touched.
#[derive(Debug)]
pub struct Config {
    /// The inputs, by name, in the order in which they are processed.
    pub files: Vec<String>,
    /// The line offset, used when no byte offset is given.
    pub lines: TakeValue,
    /// The byte offset; when present it selects byte mode.
    pub bytes: Option<TakeValue>,
    /// Suppresses the header that names each input.
    pub quiet: bool,
}

/// What one invocation writes.
#[derive(Debug)]
pub struct Output {
    /// The bytes for the standard output stream.
    pub stdout: Vec<u8>,
    /// The diagnostics for the standard error stream, one line each.
    pub stderr: Vec<String>,
}

/// Headers are written when there are several inputs and they are not
/// suppressed.
pub open spec fn shows_headers(config: &Config) -> bool {
    !config.quiet && config.files.len() > 1
}

/// The selection made from one input, as bytes for the output stream.
/// The offset of the selected mode is resolved against the measured total
/// of that mode: the number of line terminators, or the number of bytes.
pub open spec fn body_bytes(config: &Config, data: Seq<u8>) -> Seq<u8> {
    match config.bytes {
        Some(offset) => encode_utf8(shown_text(selected_bytes(data, offset, data.len()))),
        None => selected_lines(data, config.lines, newline_count(data)),
    }
}

/// Whether one of the first `n` inputs is readable.
pub open spec fn any_readable(inputs: Seq<Input>, n: nat) -> bool
    decreases n,
{
    n > 0 && (inputs[n - 1] is Content || any_readable(inputs, (n - 1) as nat))
}

/// Everything that a readable input contributes to the output stream: its
/// header, if headers are shown, and its selection. With `separated` an
/// empty line comes before the header.
pub open spec fn file_output(config: &Config, name: Seq<char>, separated: bool, data: Seq<u8>)
    -> Seq<u8> {
    (if shows_headers(config) {
        encode_utf8(header_text(name, separated))
    } else {
        Seq::empty()
    }) + body_bytes(config, data)
}

/// The output stream after the first `n` inputs. Every header after the
/// first header is separated from what was written before it: the header
/// of an input is separated when an earlier input was readable.
pub open spec fn stdout_of(config: &Config, inputs: Seq<Input>, n: nat) -> Seq<u8>
    decreases n,
{
    if n == 0 {
        Seq::empty()
    } else {
        stdout_of(config, inputs, (n - 1) as nat) + match inputs[n - 1] {
            Input::Content(data) => file_output(
                config,
                config.files[n - 1]@,
                any_readable(inputs, (n - 1) as nat),
                data@,
            ),
            Input::Unreadable(_) => Seq::empty(),
        }
    }
}

/// The diagnostics after the first `n` inputs.
pub open spec fn stderr_of(config: &Config, inputs: Seq<Input>, n: nat) -> Seq<Seq<char>>
    decreases n,
{
    if n == 0 {
        Seq::empty()
    } else {
        stderr_of(config, inputs, (n - 1) as nat) + match inputs[n - 1] {
            Input::Content(_) => Seq::empty(),
            Input::Unreadable(reason) => seq![open_failure(config.files[n - 1]@, reason@)],
        }
    }
}

/// Appends `more` to `out`.
fn append_bytes(out: &mut Vec<u8>, more: &[u8])
    ensures
        final(out)@ == old(out)@ + more@,
{
    out.extend_from_slice(more);
    assert(out@ =~= old(out)@ + more@);
}

/// Processes the inputs in order, each independently of the others.
///
/// `inputs[i]` is what came of opening and reading `config.files[i]`. An
/// input that could not be opened yields one diagnostic and no output; the
/// others are still processed. A readable input is measured, its offset is
/// resolved against the measured total of the selected mode, and the
/// selection is emitted after its header, if headers are shown. An empty
/// line comes before every header after the first header that is written.
pub fn run(config: &Config, inputs: &Vec<Input>) -> (out: Output)
    ensures
        out.stdout@ == stdout_of(config, inputs@, supplied(config.files@, inputs@)),
        texts(out.stderr@) == stderr_of(config, inputs@, supplied(config.files@, inputs@)),
{
    let count: usize = if inputs.len() <= config.files.len() {
        inputs.len()
    } else {
        config.files.len()
    };
    let headers: bool = !config.quiet && config.files.len() > 1;
    let mut stdout: Vec<u8> = Vec::new();
    let mut stderr: Vec<String> = Vec::new();
    let mut written: bool = false;
    let mut i: usize = 0;
    while i < count
        invariant
            i <= count,
            count == supplied(config.files@, inputs@),
            headers == shows_headers(config),
            written == any_readable(inputs@, i as nat),
            stdout@ == stdout_of(config, inputs@, i as nat),
            texts(stderr@) == stderr_of(config, inputs@, i as nat),
        decreases count - i,
    {
        let name: &String = &config.files[i];
        match &inputs[i] {
            Input::Unreadable(reason) => {
                let message = describe_open_failure(name, reason);
                let ghost before = stderr@;
                stderr.push(message);
                assert(texts(stderr@) =~= texts(before) + seq![message@]);
                assert(stdout@ =~= stdout@ + Seq::<u8>::empty());
            },
            Input::Content(data) => {
                let ghost before = stdout@;
                if headers {
                    let header = make_header(name.as_str(), written);
                    append_bytes(&mut stdout, header.as_str().as_bytes());
                }
                let extent = count_lines_bytes(data.as_slice());
                match &config.bytes {
                    Some(offset) => {
                        let text = print_bytes(data.as_slice(), offset, extent.total_bytes);
                        append_bytes(&mut stdout, text.as_str().as_bytes());
                    },
                    None => {
                        let selection = print_lines(
                            data.as_slice(),
                            &config.lines,
                            extent.total_lines,
                        );
                        append_bytes(&mut stdout, selection);
                    },
                }
                assert(stdout@ =~= before + file_output(config, name@, written, data@));
                assert(texts(stderr@) =~= texts(stderr@) + Seq::<Seq<char>>::empty());
                written = true;
            },
        }
        i += 1;
    }
    Output { stdout, stderr }
}

} // verus!
