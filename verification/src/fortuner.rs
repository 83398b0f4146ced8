//! Reading collections of fortunes and picking one, as `fortune` does.

use crate::input::{describe_open_failure, open_failure, Input};
use crate::lines::{read_lines, text_lines};
use crate::pattern::{compiles, is_match, regex_found, regex_valid};
use crate::text::{join, joined_with, same_text, texts};
use rand::rngs::StdRng;
use rand::seq::SliceRandom;
use rand::{RngCore, SeedableRng};
use vstd::prelude::*;
use vstd::string::*;

verus! {

/// The settings of one invocation.
#[derive(Debug)]
pub struct Config {
    /// The files and directories that hold the fortunes.
    pub sources: Vec<String>,
    /// Pick among the fortunes that match this pattern.
    pub pattern: Option<String>,
    /// The seed of the random choice; without one the choice differs from
    /// run to run.
    pub seed: Option<u64>,
    /// Match the pattern without regard to case.
    pub insensitive: bool,
}

/// One fortune, and the file it comes from.
#[derive(Debug)]
pub struct Fortune {
    pub source: String,
    pub text: String,
}

/// One file of fortunes as it was found and read.
#[derive(Debug)]
pub struct Source {
    /// The path of the file, as it is displayed.
    pub path: String,
    /// The last component of the path.
    pub name: String,
    /// What came of opening and reading the file.
    pub input: Input,
}

/// A fortune as a value of specifications: its source and its text.
pub struct Saying {
    pub source: Seq<char>,
    pub text: Seq<char>,
}

impl View for Fortune {
    type V = Saying;

    open spec fn view(&self) -> Saying {
        Saying { source: self.source@, text: self.text@ }
    }
}

/// The views of a sequence of fortunes.
pub open spec fn sayings(fortunes: Seq<Fortune>) -> Seq<Saying> {
    Seq::new(fortunes.len(), |i: int| fortunes[i]@)
}

/// Where reading stands: the fortunes that are complete, and the lines of
/// the fortune that is being read.
pub struct Reading {
    pub fortunes: Seq<Saying>,
    pub buffer: Seq<Seq<char>>,
}

/// Takes one line in. A line that holds a percent sign and nothing else
/// ends a fortune: the lines gathered so far, joined by line feeds, are
/// its text, unless there are none. Every other line is gathered.
pub open spec fn step(at: Reading, source: Seq<char>, line: Seq<char>) -> Reading {
    if line == seq!['%'] {
        if at.buffer.len() > 0 {
            Reading {
                fortunes: at.fortunes.push(
                    Saying { source, text: joined_with(at.buffer, seq!['\n']) },
                ),
                buffer: Seq::empty(),
            }
        } else {
            at
        }
    } else {
        Reading { fortunes: at.fortunes, buffer: at.buffer.push(line) }
    }
}

/// Where reading stands after the first `k` lines of a file.
pub open spec fn after_lines(at: Reading, source: Seq<char>, lines: Seq<Seq<char>>, k: nat)
    -> Reading
    decreases k,
{
    if k == 0 {
        at
    } else {
        step(after_lines(at, source, lines, (k - 1) as nat), source, lines[k - 1])
    }
}

/// The lines of a file: those that can be read as text, without their
/// terminators.
pub open spec fn lines_of(source: Source) -> Seq<Seq<char>> {
    match source.input {
        Input::Content(data) => text_lines(data@, false),
        Input::Unreadable(_) => Seq::empty(),
    }
}

/// Where reading stands after the first `n` files. Lines that are left
/// over at the end of a file, after its last percent line, go on into the
/// first fortune of the next file.
pub open spec fn after_files(sources: Seq<Source>, n: nat) -> Reading
    decreases n,
{
    if n == 0 {
        Reading { fortunes: Seq::empty(), buffer: Seq::empty() }
    } else {
        after_lines(
            after_files(sources, (n - 1) as nat),
            sources[n - 1].name@,
            lines_of(sources[n - 1]),
            lines_of(sources[n - 1]).len(),
        )
    }
}

/// The first of the first `n` files that could not be opened.
pub open spec fn first_unreadable(sources: Seq<Source>, n: nat) -> Option<nat>
    decreases n,
{
    if n == 0 {
        None
    } else {
        match first_unreadable(sources, (n - 1) as nat) {
            Some(i) => Some(i),
            None => if sources[n - 1].input is Unreadable {
                Some((n - 1) as nat)
            } else {
                None
            },
        }
    }
}

/// The first file that could not be opened stays the first.
proof fn lemma_first_unreadable_stays(sources: Seq<Source>, m: nat, n: nat)
    requires
        m <= n,
        first_unreadable(sources, m) is Some,
    ensures
        first_unreadable(sources, n) == first_unreadable(sources, m),
    decreases n,
{
    if m < n {
        lemma_first_unreadable_stays(sources, m, (n - 1) as nat);
    }
}

/// Reads the fortunes of the files in order.
///
/// Fails on the first file that could not be opened, with a message that
/// names it.
pub fn read_fortunes(sources: &Vec<Source>) -> (r: Result<Vec<Fortune>, String>)
    ensures
        first_unreadable(sources@, sources@.len()) matches Some(i) ==> r is Err && r->Err_0@
            == open_failure(sources@[i as int].path@, sources@[i as int].input->Unreadable_0@),
        first_unreadable(sources@, sources@.len()) is None ==> r is Ok && sayings(r->Ok_0@)
            == after_files(sources@, sources@.len()).fortunes,
{
    let mut fortunes: Vec<Fortune> = Vec::new();
    let mut buffer: Vec<String> = Vec::new();
    let mut n: usize = 0;
    assert(sayings(fortunes@) =~= Seq::<Saying>::empty());
    assert(texts(buffer@) =~= Seq::<Seq<char>>::empty());
    while n < sources.len()
        invariant
            n <= sources.len(),
            first_unreadable(sources@, n as nat) is None,
            sayings(fortunes@) == after_files(sources@, n as nat).fortunes,
            texts(buffer@) == after_files(sources@, n as nat).buffer,
        decreases sources.len() - n,
    {
        let source: &Source = &sources[n];
        let data: &Vec<u8> = match &source.input {
            Input::Unreadable(reason) => {
                proof {
                    lemma_first_unreadable_stays(sources@, (n + 1) as nat, sources@.len());
                }
                return Err(describe_open_failure(&source.path, reason));
            },
            Input::Content(data) => data,
        };
        let (lines, _) = read_lines(data.as_slice(), false);
        let ghost at = after_files(sources@, n as nat);
        let ghost all = lines_of(*source);
        let mut k: usize = 0;
        assert(texts(lines@).len() == lines@.len());
        while k < lines.len()
            invariant
                k <= lines.len(),
                texts(lines@) == all,
                sayings(fortunes@) == after_lines(at, source.name@, all, k as nat).fortunes,
                texts(buffer@) == after_lines(at, source.name@, all, k as nat).buffer,
            decreases lines.len() - k,
        {
            proof {
                reveal_strlit("%");
                assert("%"@ =~= seq!['%']);
                reveal_strlit("\n");
                assert("\n"@ =~= seq!['\n']);
            }
            assert(texts(lines@)[k as int] == lines@[k as int]@);
            if same_text(lines[k].as_str(), "%") {
                if buffer.len() > 0 {
                    let ghost before = fortunes@;
                    let fortune = Fortune { source: source.name.clone(), text: join(&buffer, "\n") };
                    fortunes.push(fortune);
                    buffer.clear();
                    assert(sayings(fortunes@) =~= sayings(before).push(fortune@));
                    assert(texts(buffer@) =~= Seq::<Seq<char>>::empty());
                }
            } else {
                let ghost before = buffer@;
                buffer.push(lines[k].clone());
                assert(texts(buffer@) =~= texts(before).push(lines@[k as int]@));
            }
            k += 1;
        }
        n += 1;
    }
    Ok(fortunes)
}

/// The index that `rand` chooses in a slice of `len` items with a
/// generator seeded by `seed`, in the version of `rand` that is built in.
pub uninterp spec fn seeded_choice(len: nat, seed: u64) -> nat;

/// Calls `rand::seq::SliceRandom::choose` on the fortunes, with
/// `StdRng::seed_from_u64` as the generator.
///
/// Trusted: nothing is chosen from no fortunes; else the result is the
/// fortune at the index named by [`seeded_choice`], which depends on the
/// number of fortunes and the seed alone.
#[verifier::external_body]
fn choose_seeded<'a>(fortunes: &'a [Fortune], seed: u64) -> (chosen: Option<&'a Fortune>)
    ensures
        chosen is Some <==> fortunes@.len() > 0,
        chosen matches Some(fortune) ==> seeded_choice(fortunes@.len(), seed) < fortunes@.len()
            && *fortune == fortunes@[seeded_choice(fortunes@.len(), seed) as int],
{
    let mut rng: Box<dyn RngCore> = Box::new(StdRng::seed_from_u64(seed));
    fortunes.choose(&mut rng)
}

/// Calls `rand::seq::SliceRandom::choose` on the fortunes, with
/// `rand::thread_rng` as the generator.
///
/// Trusted: nothing is chosen from no fortunes; else the result is one of
/// the fortunes. Which one differs from call to call, and nothing more is
/// claimed of it.
#[verifier::external_body]
fn choose_unseeded<'a>(fortunes: &'a [Fortune]) -> (chosen: Option<&'a Fortune>)
    ensures
        chosen is Some <==> fortunes@.len() > 0,
        chosen matches Some(fortune) ==> exists|i: int|
            0 <= i < fortunes@.len() && *fortune == #[trigger] fortunes@[i],
{
    let mut rng: Box<dyn RngCore> = Box::new(rand::thread_rng());
    fortunes.choose(&mut rng)
}

/// Picks one fortune at random and gives its text. With a seed the
/// generator is made from the seed, and the same seed picks the same
/// fortune among as many; without one the generator of the thread is used.
pub fn pick_fortune(fortunes: &[Fortune], seed: Option<u64>) -> (text: Option<String>)
    ensures
        fortunes@.len() == 0 ==> text is None,
        fortunes@.len() > 0 ==> text is Some && exists|i: int|
            0 <= i < fortunes@.len() && text->0@ == (#[trigger] fortunes@[i]).text@,
        fortunes@.len() > 0 && seed is Some ==> seeded_choice(fortunes@.len(), seed->0)
            < fortunes@.len() && text->0@ == fortunes@[seeded_choice(
            fortunes@.len(),
            seed->0,
        ) as int].text@,
{
    let chosen = match seed {
        Some(seed) => choose_seeded(fortunes, seed),
        None => choose_unseeded(fortunes),
    };
    match chosen {
        Some(fortune) => Some(fortune.text.clone()),
        None => None,
    }
}

/// Whether a pattern that compiles matches a text.
pub open spec fn matches(pattern: Seq<char>, insensitive: bool, text: Seq<char>) -> bool {
    regex_valid(pattern, insensitive) && regex_found(pattern, insensitive, text)
}

/// Those of the first `k` fortunes whose text the pattern matches.
pub open spec fn matching(pattern: Seq<char>, insensitive: bool, fortunes: Seq<Saying>, k: nat)
    -> Seq<Saying>
    decreases k,
{
    if k == 0 {
        Seq::empty()
    } else {
        let before = matching(pattern, insensitive, fortunes, (k - 1) as nat);
        if matches(pattern, insensitive, fortunes[k - 1].text) {
            before.push(fortunes[k - 1])
        } else {
            before
        }
    }
}

/// Keeps the fortunes whose text the pattern matches.
pub fn filter_fortunes(fortunes: &Vec<Fortune>, pattern: &str, insensitive: bool) -> (kept: Vec<
    Fortune,
>)
    ensures
        sayings(kept@) == matching(
            pattern@,
            insensitive,
            sayings(fortunes@),
            fortunes@.len(),
        ),
{
    let mut kept: Vec<Fortune> = Vec::new();
    let mut k: usize = 0;
    assert(sayings(kept@) =~= Seq::<Saying>::empty());
    while k < fortunes.len()
        invariant
            k <= fortunes.len(),
            sayings(kept@) == matching(pattern@, insensitive, sayings(fortunes@), k as nat),
        decreases fortunes.len() - k,
    {
        let fortune: &Fortune = &fortunes[k];
        assert(sayings(fortunes@)[k as int] == fortune@);
        match is_match(pattern, insensitive, fortune.text.as_str()) {
            Some(true) => {
                let ghost before = kept@;
                let copy = Fortune { source: fortune.source.clone(), text: fortune.text.clone() };
                kept.push(copy);
                assert(sayings(kept@) =~= sayings(before).push(fortune@));
            },
            _ => {},
        }
        k += 1;
    }
    kept
}

/// The message for a pattern that is rejected.
pub open spec fn invalid_pattern(pattern: Seq<char>) -> Seq<char> {
    "Invalid --pattern \""@ + pattern + "\""@
}

/// The fortunes among which one is picked: all that were read, or those
/// that match the pattern when there is one.
pub open spec fn candidates(config: &Config, sources: Seq<Source>) -> Seq<Saying> {
    let all = after_files(sources, sources.len()).fortunes;
    match config.pattern {
        Some(pattern) => matching(pattern@, config.insensitive, all, all.len()),
        None => all,
    }
}

/// Whether a run is refused, and with what message: for a pattern that
/// does not compile, for a file that could not be opened, and for a
/// pattern that no fortune matches, in this order.
pub open spec fn refusal(config: &Config, sources: Seq<Source>) -> Option<Seq<char>> {
    if config.pattern is Some && !regex_valid(config.pattern->0@, config.insensitive) {
        Some(invalid_pattern(config.pattern->0@))
    } else if first_unreadable(sources, sources.len()) is Some {
        let i = first_unreadable(sources, sources.len())->0 as int;
        Some(open_failure(sources[i].path@, sources[i].input->Unreadable_0@))
    } else if config.pattern is Some && candidates(config, sources).len() == 0 {
        Some("No fortunes found matching the pattern"@)
    } else {
        None
    }
}

/// Reads the fortunes of the files and picks one, followed by a line
/// feed. With a pattern the choice is among the fortunes that it matches.
///
/// Without a pattern there must be a fortune to pick.
pub fn run(config: &Config, sources: &Vec<Source>) -> (r: Result<String, String>)
    requires
        config.pattern is None && first_unreadable(sources@, sources@.len()) is None
            ==> after_files(sources@, sources@.len()).fortunes.len() > 0,
    ensures
        refusal(config, sources@) matches Some(message) ==> r is Err && r->Err_0@ == message,
        refusal(config, sources@) is None ==> r is Ok && exists|i: int|
            0 <= i < candidates(config, sources@).len() && r->Ok_0@ == (#[trigger] candidates(
                config,
                sources@,
            )[i]).text + seq!['\n'],
        refusal(config, sources@) is None && config.seed is Some ==> seeded_choice(
            candidates(config, sources@).len(),
            config.seed->0,
        ) < candidates(config, sources@).len() && r->Ok_0@ == candidates(
            config,
            sources@,
        )[seeded_choice(candidates(config, sources@).len(), config.seed->0) as int].text + seq![
            '\n',
        ],
{
    match &config.pattern {
        Some(pattern) => {
            if !compiles(pattern.as_str(), config.insensitive) {
                let mut message = String::from_str("Invalid --pattern \"");
                message.append(pattern.as_str());
                message.append("\"");
                return Err(message);
            }
        },
        None => {},
    }
    let fortunes = match read_fortunes(sources) {
        Ok(fortunes) => fortunes,
        Err(message) => {
            return Err(message);
        },
    };
    assert(sayings(fortunes@).len() == fortunes@.len());
    let chosen: Vec<Fortune> = match &config.pattern {
        Some(pattern) => {
            let kept = filter_fortunes(&fortunes, pattern.as_str(), config.insensitive);
            assert(sayings(kept@).len() == kept@.len());
            if kept.len() == 0 {
                return Err(String::from_str("No fortunes found matching the pattern"));
            }
            kept
        },
        None => fortunes,
    };
    assert(sayings(chosen@) == candidates(config, sources@));
    let picked = pick_fortune(chosen.as_slice(), config.seed);
    let mut out: String = picked.unwrap();
    proof {
        reveal_strlit("\n");
        let i = choose|i: int| 0 <= i < chosen@.len() && picked->0@ == (#[trigger] chosen@[i]).text@;
        assert(sayings(chosen@)[i].text == chosen@[i].text@);
        if config.seed is Some {
            let j = seeded_choice(chosen@.len(), config.seed->0) as int;
            assert(sayings(chosen@)[j].text == chosen@[j].text@);
        }
    }
    out.append("\n");
    assert(out@ =~= picked->0@ + seq!['\n']);
    Ok(out)
}

} // verus!
