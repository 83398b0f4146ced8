//! Filtering directory entries by kind and by name, as `find` does.

use crate::pattern::{is_match, regex_found, regex_valid};
use crate::text::{join, joined_with, texts};
use vstd::prelude::*;
use vstd::string::*;

verus! {

/// The kinds of directory entry that can be asked for.
#[derive(Debug, PartialEq, Eq, Clone, Copy, Structural)]
pub enum EntryType {
    Dir,
    File,
    Link,
}

/// The settings of one invocation.
#[derive(Debug)]
pub struct Config {
    /// Where to search.
    pub paths: Vec<String>,
    /// Patterns for the names of entries; an entry is kept when one of
    /// them matches its name, or when there is none.
    pub names: Vec<String>,
    /// The kinds of entry to keep; every kind when there is none.
    pub entry_types: Vec<EntryType>,
}

/// What a walk came upon: an entry, or a failure to read one.
#[derive(Debug)]
pub enum Visit {
    /// An entry, with what its file type says, its name and its path as
    /// it is displayed.
    Entry { is_dir: bool, is_file: bool, is_symlink: bool, file_name: String, path: String },
    /// A failure, with its message.
    Failed(String),
}

/// What one invocation writes.
#[derive(Debug)]
pub struct Output {
    /// The text for the standard output stream.
    pub stdout: String,
    /// The diagnostics for the standard error stream, one line each.
    pub stderr: Vec<String>,
}

impl EntryType {
    /// All kinds, in the order in which they are offered.
    pub fn value_variants() -> (all: Vec<EntryType>)
        ensures
            all@ == seq![EntryType::Dir, EntryType::File, EntryType::Link],
    {
        let mut all: Vec<EntryType> = Vec::new();
        all.push(EntryType::Dir);
        all.push(EntryType::File);
        all.push(EntryType::Link);
        assert(all@ =~= seq![EntryType::Dir, EntryType::File, EntryType::Link]);
        all
    }

    /// The letter by which a kind is asked for.
    pub fn to_possible_value(&self) -> (letter: &'static str)
        ensures
            letter@ == kind_letter(*self),
    {
        match self {
            EntryType::Dir => "d",
            EntryType::File => "f",
            EntryType::Link => "l",
        }
    }
}

/// The letter by which a kind is asked for.
pub open spec fn kind_letter(kind: EntryType) -> Seq<char> {
    match kind {
        EntryType::Dir => "d"@,
        EntryType::File => "f"@,
        EntryType::Link => "l"@,
    }
}

/// The kind of an entry: directory before file before link; none for an
/// entry that is none of these.
pub open spec fn kind_of(is_dir: bool, is_file: bool, is_symlink: bool) -> Option<EntryType> {
    if is_dir {
        Some(EntryType::Dir)
    } else if is_file {
        Some(EntryType::File)
    } else if is_symlink {
        Some(EntryType::Link)
    } else {
        None
    }
}

/// An entry passes the filter by kind when it has a kind, and that kind
/// is asked for or no kind is.
pub open spec fn kind_passes(kinds: Seq<EntryType>, kind: Option<EntryType>) -> bool {
    kind is Some && (kinds.len() == 0 || kinds.contains(kind->0))
}

/// An entry passes the filter by name when a pattern that compiles
/// matches its name, or there is no pattern.
pub open spec fn name_passes(names: Seq<String>, file_name: Seq<char>) -> bool {
    names.len() == 0 || exists|i: int|
        0 <= i < names.len() && regex_valid(#[trigger] names[i]@, false) && regex_found(
            names[i]@,
            false,
            file_name,
        )
}

/// Whether a visit is an entry that passes both filters.
pub open spec fn keeps(config: &Config, visit: Visit) -> bool {
    match visit {
        Visit::Entry { is_dir, is_file, is_symlink, file_name, path } => kind_passes(
            config.entry_types@,
            kind_of(is_dir, is_file, is_symlink),
        ) && name_passes(config.names@, file_name@),
        Visit::Failed(_) => false,
    }
}

/// The paths of the entries that are kept among the first `k` visits.
pub open spec fn kept_paths(config: &Config, visits: Seq<Visit>, k: nat) -> Seq<Seq<char>>
    decreases k,
{
    if k == 0 {
        Seq::empty()
    } else {
        let before = kept_paths(config, visits, (k - 1) as nat);
        if keeps(config, visits[k - 1]) {
            before.push(visits[k - 1]->path@)
        } else {
            before
        }
    }
}

/// The messages of the failures among the first `k` visits.
pub open spec fn failures(visits: Seq<Visit>, k: nat) -> Seq<Seq<char>>
    decreases k,
{
    if k == 0 {
        Seq::empty()
    } else {
        let before = failures(visits, (k - 1) as nat);
        match visits[k - 1] {
            Visit::Failed(message) => before.push(message@),
            _ => before,
        }
    }
}

/// Tells whether an entry passes the filter by kind.
pub fn type_filter(kinds: &Vec<EntryType>, is_dir: bool, is_file: bool, is_symlink: bool) -> (r:
    bool)
    ensures
        r == kind_passes(kinds@, kind_of(is_dir, is_file, is_symlink)),
{
    let kind = if is_dir {
        EntryType::Dir
    } else if is_file {
        EntryType::File
    } else if is_symlink {
        EntryType::Link
    } else {
        return false;
    };
    if kinds.len() == 0 {
        return true;
    }
    let mut i: usize = 0;
    while i < kinds.len()
        invariant
            i <= kinds.len(),
            kinds@.len() > 0,
            kind_of(is_dir, is_file, is_symlink) == Some(kind),
            forall|j: int| 0 <= j < i ==> kinds@[j] != kind,
        decreases kinds.len() - i,
    {
        if kinds[i] == kind {
            assert(kinds@[i as int] == kind);
            return true;
        }
        i += 1;
    }
    false
}

/// Tells whether an entry passes the filter by name.
pub fn name_filter(names: &Vec<String>, file_name: &str) -> (r: bool)
    ensures
        r == name_passes(names@, file_name@),
{
    if names.len() == 0 {
        return true;
    }
    let mut i: usize = 0;
    while i < names.len()
        invariant
            i <= names.len(),
            forall|j: int|
                0 <= j < i ==> !(regex_valid(#[trigger] names@[j]@, false) && regex_found(
                    names@[j]@,
                    false,
                    file_name@,
                )),
        decreases names.len() - i,
    {
        match is_match(names[i].as_str(), false, file_name) {
            Some(true) => {
                return true;
            },
            _ => {},
        }
        i += 1;
    }
    false
}

/// What the searches of the first `n` paths write: for each path the
/// paths of the entries that are kept, one to a line.
pub open spec fn stdout_of(config: &Config, walks: Seq<Vec<Visit>>, n: nat) -> Seq<char>
    decreases n,
{
    if n == 0 {
        Seq::empty()
    } else {
        stdout_of(config, walks, (n - 1) as nat) + joined_with(
            kept_paths(config, walks[n - 1]@, walks[n - 1]@.len()),
            seq!['\n'],
        ) + seq!['\n']
    }
}

/// The diagnostics of the searches of the first `n` paths.
pub open spec fn stderr_of(walks: Seq<Vec<Visit>>, n: nat) -> Seq<Seq<char>>
    decreases n,
{
    if n == 0 {
        Seq::empty()
    } else {
        stderr_of(walks, (n - 1) as nat) + failures(walks[n - 1]@, walks[n - 1]@.len())
    }
}

/// Filters what the walks of the search paths came upon. `walks[i]` is
/// the walk of `config.paths[i]`, in the order of the walk. Failures are
/// reported and otherwise passed over.
pub fn run(config: &Config, walks: &Vec<Vec<Visit>>) -> (out: Output)
    ensures
        out.stdout@ == stdout_of(config, walks@, walks@.len()),
        texts(out.stderr@) == stderr_of(walks@, walks@.len()),
{
    let mut stdout = String::new();
    let mut stderr: Vec<String> = Vec::new();
    let mut n: usize = 0;
    while n < walks.len()
        invariant
            n <= walks.len(),
            stdout@ == stdout_of(config, walks@, n as nat),
            texts(stderr@) == stderr_of(walks@, n as nat),
        decreases walks.len() - n,
    {
        let visits: &Vec<Visit> = &walks[n];
        let mut kept: Vec<String> = Vec::new();
        let ghost errors_before = stderr@;
        let mut k: usize = 0;
        while k < visits.len()
            invariant
                k <= visits.len(),
                texts(kept@) == kept_paths(config, visits@, k as nat),
                texts(stderr@) == texts(errors_before) + failures(visits@, k as nat),
            decreases visits.len() - k,
        {
            match &visits[k] {
                Visit::Entry { is_dir, is_file, is_symlink, file_name, path } => {
                    let ghost before = kept@;
                    if type_filter(&config.entry_types, *is_dir, *is_file, *is_symlink)
                        && name_filter(&config.names, file_name.as_str()) {
                        kept.push(path.clone());
                        assert(texts(kept@) =~= texts(before).push(path@));
                    }
                },
                Visit::Failed(message) => {
                    let ghost before = stderr@;
                    stderr.push(message.clone());
                    assert(texts(stderr@) =~= texts(before).push(message@));
                    assert(texts(stderr@) =~= texts(errors_before) + failures(
                        visits@,
                        (k + 1) as nat,
                    ));
                },
            }
            k += 1;
        }
        proof {
            reveal_strlit("\n");
            assert("\n"@ =~= seq!['\n']);
        }
        stdout.append(join(&kept, "\n").as_str());
        stdout.append("\n");
        assert(stdout@ =~= stdout_of(config, walks@, (n + 1) as nat));
        n += 1;
    }
    Output { stdout, stderr }
}

} // verus!
