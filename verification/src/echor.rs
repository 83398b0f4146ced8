//! Writing the arguments back, as `echo` does.

use crate::text::{join, joined_with, texts};
use vstd::prelude::*;
use vstd::string::*;

verus! {

/// What is written for the given words: the words with single spaces
/// between them, and a line feed unless it is suppressed.
pub open spec fn echoed(words: Seq<Seq<char>>, no_newline: bool) -> Seq<char> {
    joined_with(words, seq![' ']) + if no_newline {
        Seq::empty()
    } else {
        seq!['\n']
    }
}

/// Writes the words back.
pub fn echo(text: &Vec<String>, no_newline: bool) -> (out: String)
    ensures
        out@ == echoed(texts(text@), no_newline),
{
    proof {
        reveal_strlit(" ");
        reveal_strlit("\n");
        assert(" "@ =~= seq![' ']);
    }
    let mut out = join(text, " ");
    if !no_newline {
        out.append("\n");
    }
    assert(out@ =~= echoed(texts(text@), no_newline));
    out
}

} // verus!
