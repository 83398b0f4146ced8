//! What the program hands over for each input that it was asked to read.

use vstd::prelude::*;
use vstd::string::*;

verus! {

/// What came of opening and reading one input.
#[derive(Debug)]
pub enum Input {
    /// The input could not be opened, for the reason given.
    Unreadable(String),
    /// The whole content of the input.
    Content(Vec<u8>),
}

/// Why reading an input as text failed.
#[derive(Debug, PartialEq, Eq, Clone, Copy, Structural)]
pub enum ReadError {
    /// The input is not text: its bytes are not well-formed UTF-8.
    InvalidUtf8,
}

/// What one invocation writes, and whether it stopped early.
#[derive(Debug)]
pub struct Report {
    /// The text for the standard output stream.
    pub stdout: String,
    /// The diagnostics for the standard error stream, one line each.
    pub stderr: Vec<String>,
    /// Set when an input was no text; nothing after the failure was
    /// processed.
    pub failed: Option<ReadError>,
}

/// The diagnostic for an input that could not be opened.
pub open spec fn open_failure(name: Seq<char>, reason: Seq<char>) -> Seq<char> {
    name + seq![':', ' '] + reason
}

/// Builds the diagnostic for an input that could not be opened.
pub fn describe_open_failure(name: &String, reason: &String) -> (message: String)
    ensures
        message@ == open_failure(name@, reason@),
{
    proof {
        reveal_strlit(": ");
    }
    let mut message: String = name.clone();
    message.append(": ");
    message.append(reason.as_str());
    assert(message@ =~= open_failure(name@, reason@));
    message
}

/// The header line that names an input; when `separated` is set an
/// empty line comes before it.
pub open spec fn header_text(name: Seq<char>, separated: bool) -> Seq<char> {
    (if separated {
        seq!['\n']
    } else {
        Seq::empty()
    }) + seq!['=', '=', '>', ' '] + name + seq![' ', '<', '=', '=', '\n']
}

/// Builds the header line that names an input.
pub fn make_header(name: &str, separated: bool) -> (header: String)
    ensures
        header@ == header_text(name@, separated),
{
    proof {
        reveal_strlit("\n");
        reveal_strlit("==> ");
        reveal_strlit(" <==\n");
    }
    let mut header = String::new();
    if separated {
        header.append("\n");
    }
    header.append("==> ");
    header.append(name);
    header.append(" <==\n");
    assert(header@ =~= header_text(name@, separated));
    header
}

/// How many inputs an invocation looks at: those that are both named and
/// supplied.
pub open spec fn supplied(names: Seq<String>, inputs: Seq<Input>) -> nat {
    if inputs.len() <= names.len() {
        inputs.len()
    } else {
        names.len()
    }
}

/// The first of the first `n` inputs on which `fails` holds.
pub open spec fn first_failing(inputs: Seq<Input>, n: nat, fails: spec_fn(Input) -> bool) -> Option<
    nat,
>
    decreases n,
{
    if n == 0 {
        None
    } else {
        match first_failing(inputs, (n - 1) as nat, fails) {
            Some(i) => Some(i),
            None => if fails(inputs[n - 1]) {
                Some((n - 1) as nat)
            } else {
                None
            },
        }
    }
}

/// The first failure among some inputs is the first failure among more.
pub proof fn lemma_first_failing_stays(
    inputs: Seq<Input>,
    m: nat,
    n: nat,
    fails: spec_fn(Input) -> bool,
)
    requires
        m <= n,
        first_failing(inputs, m, fails) is Some,
    ensures
        first_failing(inputs, n, fails) == first_failing(inputs, m, fails),
    decreases n,
{
    if m < n {
        lemma_first_failing_stays(inputs, m, (n - 1) as nat, fails);
    }
}

} // verus!
