//! Counting the lines, words, bytes and characters of a text, as `wc` does.

use crate::input::{
    describe_open_failure, first_failing, lemma_first_failing_stays, open_failure, supplied, Input,
    ReadError, Report,
};
use crate::lines::{count_lines, lemma_newline_count_le_len, line_count};
use crate::text::{
    align_right, decimal_digits, is_white_space, is_whitespace, lemma_chars_le_bytes, pad_left,
    same_text, texts, u64_to_string, utf8_text,
};
use vstd::prelude::*;
use vstd::std_specs::iter::IteratorSpec;
use vstd::string::*;
use vstd::utf8::{decode_utf8, decode_utf8_encode_utf8, valid_utf8};

verus! {

/// The settings of one invocation: the inputs, and which counts to show.
#[derive(Debug)]
pub struct Config {
    pub files: Vec<String>,
    pub lines: bool,
    pub words: bool,
    pub bytes: bool,
    pub chars: bool,
}

/// The counts of one input.
#[derive(Debug, PartialEq, Eq, Clone, Copy, Structural)]
pub struct FileInfo {
    pub num_lines: usize,
    pub num_words: usize,
    pub num_bytes: usize,
    pub num_chars: usize,
}

/// Counts as numbers without a bound.
pub struct Counts {
    pub lines: nat,
    pub words: nat,
    pub bytes: nat,
    pub chars: nat,
}

impl View for FileInfo {
    type V = Counts;

    open spec fn view(&self) -> Counts {
        Counts {
            lines: self.num_lines as nat,
            words: self.num_words as nat,
            bytes: self.num_bytes as nat,
            chars: self.num_chars as nat,
        }
    }
}

/// A word starts at `i` when the character there is no white space and
/// follows white space or the start of the text.
pub open spec fn starts_word(text: Seq<char>, i: int) -> bool {
    !is_white_space(text[i]) && (i == 0 || is_white_space(text[i - 1]))
}

/// How many words `text` holds: maximal runs of characters that are not
/// white space.
pub open spec fn word_count(text: Seq<char>) -> nat
    decreases text.len(),
{
    if text.len() == 0 {
        0
    } else {
        word_count(text.drop_last()) + if starts_word(text, text.len() - 1) {
            1nat
        } else {
            0nat
        }
    }
}

/// The counts of a text given as well-formed UTF-8.
pub open spec fn counts_of(data: Seq<u8>) -> Counts {
    Counts {
        lines: line_count(data),
        words: word_count(decode_utf8(data)),
        bytes: data.len(),
        chars: decode_utf8(data).len(),
    }
}

/// The sum of two counts.
pub open spec fn counts_sum(a: Counts, b: Counts) -> Counts {
    Counts {
        lines: a.lines + b.lines,
        words: a.words + b.words,
        bytes: a.bytes + b.bytes,
        chars: a.chars + b.chars,
    }
}

/// One count in a field of eight characters, if it is shown.
pub open spec fn count_field(shown: bool, value: nat) -> Seq<char> {
    if shown {
        pad_left(decimal_digits(value), 8)
    } else {
        Seq::empty()
    }
}

/// The line that reports the counts of one input: the counts that are
/// shown, then the name unless the input is the standard input (`-`).
pub open spec fn count_line(config: &Config, counts: Counts, name: Seq<char>) -> Seq<char> {
    count_field(config.lines, counts.lines) + count_field(config.words, counts.words)
        + count_field(config.bytes, counts.bytes) + count_field(config.chars, counts.chars) + (
    if name == seq!['-'] {
        Seq::empty()
    } else {
        seq![' '] + name
    }) + seq!['\n']
}

/// No count of a text exceeds its size in bytes.
pub proof fn lemma_counts_le_bytes(data: Seq<u8>)
    requires
        valid_utf8(data),
    ensures
        counts_of(data).lines <= data.len(),
        counts_of(data).words <= data.len(),
        counts_of(data).chars <= data.len(),
{
    lemma_newline_count_le_len(data);
    lemma_chars_le_bytes(decode_utf8(data));
    lemma_words_le_chars(decode_utf8(data));
    decode_utf8_encode_utf8(data);
}

/// There are no more words than characters.
pub proof fn lemma_words_le_chars(text: Seq<char>)
    ensures
        word_count(text) <= text.len(),
    decreases text.len(),
{
    if text.len() > 0 {
        lemma_words_le_chars(text.drop_last());
    }
}

/// Counts the words and the characters of a text.
fn count_words_chars(text: &str) -> (r: (usize, usize))
    requires
        text@.len() <= usize::MAX,
    ensures
        r.0 == word_count(text@),
        r.1 == text@.len(),
{
    let mut words: usize = 0;
    let mut chars: usize = 0;
    let mut in_word: bool = false;
    let mut it = text.chars();
    proof {
        axiom_spec_iter(text);
    }
    loop
        invariant
            it.obeys_prophetic_iter_laws(),
            chars <= text@.len() <= usize::MAX,
            text@ == text@.take(chars as int) + it.remaining(),
            words == word_count(text@.take(chars as int)),
            in_word == (chars > 0 && !is_white_space(text@[chars - 1])),
        ensures
            chars == text@.len(),
            words == word_count(text@),
        decreases text@.len() - chars,
    {
        let ghost before = it;
        let next = it.next();
        proof {
            next_postcondition(&before, &it, next);
        }
        match next {
            Some(c) => {
                proof {
                    let seen = text@.take(chars as int);
                    let grown = text@.take(chars + 1);
                    assert(text@.len() == chars + before.remaining().len());
                    assert(text@[chars as int] == before.remaining()[0]);
                    assert(grown.drop_last() =~= seen);
                    assert(grown + it.remaining() =~= text@);
                    lemma_words_le_chars(grown);
                }
                if is_whitespace(c) {
                    in_word = false;
                } else {
                    if !in_word {
                        words += 1;
                    }
                    in_word = true;
                }
                chars += 1;
            },
            None => {
                proof {
                    assert(text@.take(chars as int) =~= text@);
                }
                break ;
            },
        }
    }
    (words, chars)
}

/// Counts an input.
///
/// Succeeds exactly on well-formed UTF-8. Lines are counted by their
/// terminators, a last line without one included; words are separated by
/// white space; characters are Unicode scalar values.
pub fn count(data: &[u8]) -> (r: Result<FileInfo, ReadError>)
    ensures
        valid_utf8(data@) ==> r is Ok && r->Ok_0@ == counts_of(data@),
        !valid_utf8(data@) ==> r == Err::<FileInfo, ReadError>(ReadError::InvalidUtf8),
{
    match utf8_text(data) {
        Some(text) => {
            let bytes: usize = data.len();
            proof {
                lemma_newline_count_le_len(data@);
                lemma_chars_le_bytes(text@);
                decode_utf8_encode_utf8(data@);
            }
            let lines = count_lines(data);
            let (words, chars) = count_words_chars(text);
            Ok(
                FileInfo {
                    num_lines: lines,
                    num_words: words,
                    num_bytes: bytes,
                    num_chars: chars,
                },
            )
        },
        None => Err(ReadError::InvalidUtf8),
    }
}

/// Settles which counts are shown: those that were asked for, or lines,
/// words and bytes when none was.
pub fn get_args(files: Vec<String>, lines: bool, words: bool, bytes: bool, chars: bool) -> (config:
    Config)
    ensures
        config.files == files,
        config.chars == chars,
        lines || words || bytes || chars ==> config.lines == lines && config.words == words
            && config.bytes == bytes,
        !(lines || words || bytes || chars) ==> config.lines && config.words && config.bytes,
{
    if !lines && !words && !bytes && !chars {
        Config { files, lines: true, words: true, bytes: true, chars }
    } else {
        Config { files, lines, words, bytes, chars }
    }
}

/// Appends one count in a field of eight characters, if it is shown.
fn push_count(line: &mut String, shown: bool, value: usize)
    ensures
        final(line)@ == old(line)@ + count_field(shown, value as nat),
{
    if shown {
        line.append(align_right(u64_to_string(value as u64).as_str(), 8).as_str());
    }
    assert(line@ =~= old(line)@ + count_field(shown, value as nat));
}

/// Writes the line that reports the counts of one input.
pub fn print_count(config: &Config, file_info: FileInfo, filename: &str) -> (line: String)
    ensures
        line@ == count_line(config, file_info@, filename@),
{
    proof {
        reveal_strlit("-");
        reveal_strlit(" ");
        reveal_strlit("\n");
        assert("-"@ =~= seq!['-']);
    }
    let mut line = String::new();
    push_count(&mut line, config.lines, file_info.num_lines);
    push_count(&mut line, config.words, file_info.num_words);
    push_count(&mut line, config.bytes, file_info.num_bytes);
    push_count(&mut line, config.chars, file_info.num_chars);
    if !same_text(filename, "-") {
        line.append(" ");
        line.append(filename);
    }
    line.append("\n");
    assert(line@ =~= count_line(config, file_info@, filename@));
    line
}

/// An input fails when it is readable but no text.
pub open spec fn fails() -> spec_fn(Input) -> bool {
    |input: Input|
        match input {
            Input::Content(data) => !valid_utf8(data@),
            Input::Unreadable(_) => false,
        }
}

/// The size in bytes of the first `n` inputs together.
pub open spec fn total_len(inputs: Seq<Input>, n: nat) -> nat
    decreases n,
{
    if n == 0 {
        0
    } else {
        total_len(inputs, (n - 1) as nat) + match inputs[n - 1] {
            Input::Content(data) => data@.len(),
            Input::Unreadable(_) => 0,
        }
    }
}

/// The counts of the first `n` inputs together.
pub open spec fn totals(inputs: Seq<Input>, n: nat) -> Counts
    decreases n,
{
    if n == 0 {
        Counts { lines: 0, words: 0, bytes: 0, chars: 0 }
    } else {
        match inputs[n - 1] {
            Input::Content(data) => counts_sum(
                totals(inputs, (n - 1) as nat),
                counts_of(data@),
            ),
            Input::Unreadable(_) => totals(inputs, (n - 1) as nat),
        }
    }
}

/// The lines that report the first `n` inputs.
pub open spec fn stdout_of(config: &Config, inputs: Seq<Input>, n: nat) -> Seq<char>
    decreases n,
{
    if n == 0 {
        Seq::empty()
    } else {
        stdout_of(config, inputs, (n - 1) as nat) + match inputs[n - 1] {
            Input::Content(data) => count_line(config, counts_of(data@), config.files[n - 1]@),
            Input::Unreadable(_) => Seq::empty(),
        }
    }
}

/// The diagnostics for the first `n` inputs.
pub open spec fn stderr_of(config: &Config, inputs: Seq<Input>, n: nat) -> Seq<Seq<char>>
    decreases n,
{
    if n == 0 {
        Seq::empty()
    } else {
        stderr_of(config, inputs, (n - 1) as nat) + match inputs[n - 1] {
            Input::Content(_) => Seq::empty(),
            Input::Unreadable(reason) => seq![open_failure(config.files[n - 1]@, reason@)],
        }
    }
}

/// How many inputs are reported: all that are looked at, or those before
/// the first that is no text.
pub open spec fn reported(config: &Config, inputs: Seq<Input>) -> nat {
    match first_failing(inputs, supplied(config.files@, inputs), fails()) {
        Some(i) => i,
        None => supplied(config.files@, inputs),
    }
}

/// The line of totals, which follows the others when several inputs were
/// named and all of them were counted.
pub open spec fn total_line(config: &Config, inputs: Seq<Input>) -> Seq<char> {
    if first_failing(inputs, supplied(config.files@, inputs), fails()) is None && config.files.len() > 1 {
        count_line(config, totals(inputs, supplied(config.files@, inputs)), "total"@)
    } else {
        Seq::empty()
    }
}

/// The totals never exceed the size of the inputs.
proof fn lemma_totals_le_len(inputs: Seq<Input>, n: nat)
    requires
        first_failing(inputs, n, fails()) is None,
    ensures
        totals(inputs, n).lines <= total_len(inputs, n),
        totals(inputs, n).words <= total_len(inputs, n),
        totals(inputs, n).chars <= total_len(inputs, n),
        totals(inputs, n).bytes == total_len(inputs, n),
    decreases n,
{
    if n > 0 {
        lemma_totals_le_len(inputs, (n - 1) as nat);
        match inputs[n - 1] {
            Input::Content(data) => {
                lemma_counts_le_bytes(data@);
            },
            Input::Unreadable(_) => {},
        }
    }
}

/// The size of the inputs only grows.
proof fn lemma_total_len_grows(inputs: Seq<Input>, m: nat, n: nat)
    requires
        m <= n,
    ensures
        total_len(inputs, m) <= total_len(inputs, n),
    decreases n,
{
    if m < n {
        lemma_total_len_grows(inputs, m, (n - 1) as nat);
    }
}

/// Counts the inputs in order and reports each, then the totals.
///
/// `inputs[i]` is what came of opening and reading `config.files[i]`. An
/// input that could not be opened yields one diagnostic and is left out of
/// the totals. The first input that is no text ends the run: it and the
/// inputs after it are not reported, and no totals are written.
pub fn run(config: &Config, inputs: &Vec<Input>) -> (report: Report)
    requires
        total_len(inputs@, supplied(config.files@, inputs@)) <= usize::MAX,
    ensures
        report.stdout@ == stdout_of(config, inputs@, reported(config, inputs@)) + total_line(
            config,
            inputs@,
        ),
        texts(report.stderr@) == stderr_of(config, inputs@, reported(config, inputs@)),
        report.failed == match first_failing(inputs@, supplied(config.files@, inputs@), fails()) {
            Some(_) => Some(ReadError::InvalidUtf8),
            None => None,
        },
{
    let wanted: usize = if inputs.len() <= config.files.len() {
        inputs.len()
    } else {
        config.files.len()
    };
    let mut total = FileInfo { num_lines: 0, num_words: 0, num_bytes: 0, num_chars: 0 };
    let mut stdout = String::new();
    let mut stderr: Vec<String> = Vec::new();
    let mut i: usize = 0;
    while i < wanted
        invariant
            i <= wanted,
            wanted == supplied(config.files@, inputs@),
            total_len(inputs@, wanted as nat) <= usize::MAX,
            first_failing(inputs@, i as nat, fails()) is None,
            total@ == totals(inputs@, i as nat),
            stdout@ == stdout_of(config, inputs@, i as nat),
            texts(stderr@) == stderr_of(config, inputs@, i as nat),
        decreases wanted - i,
    {
        let name: &String = &config.files[i];
        match &inputs[i] {
            Input::Unreadable(reason) => {
                let message = describe_open_failure(name, reason);
                let ghost before = stderr@;
                stderr.push(message);
                assert(texts(stderr@) =~= texts(before) + seq![message@]);
                assert(stdout@ =~= stdout@ + Seq::<char>::empty());
            },
            Input::Content(data) => {
                match count(data.as_slice()) {
                    Ok(info) => {
                        proof {
                            lemma_totals_le_len(inputs@, (i + 1) as nat);
                            lemma_total_len_grows(inputs@, (i + 1) as nat, wanted as nat);
                        }
                        total =
                        FileInfo {
                            num_lines: total.num_lines + info.num_lines,
                            num_words: total.num_words + info.num_words,
                            num_bytes: total.num_bytes + info.num_bytes,
                            num_chars: total.num_chars + info.num_chars,
                        };
                        stdout.append(print_count(config, info, name.as_str()).as_str());
                        assert(texts(stderr@) =~= texts(stderr@) + Seq::<Seq<char>>::empty());
                    },
                    Err(e) => {
                        proof {
                            lemma_first_failing_stays(inputs@, (i + 1) as nat, wanted as nat, fails());
                            assert(stdout@ =~= stdout@ + Seq::<char>::empty());
                        }
                        return Report { stdout, stderr, failed: Some(e) };
                    },
                }
            },
        }
        i += 1;
    }
    if config.files.len() > 1 {
        stdout.append(print_count(config, total, "total").as_str());
    } else {
        assert(stdout@ =~= stdout@ + Seq::<char>::empty());
    }
    Report { stdout, stderr, failed: None }
}

} // verus!
