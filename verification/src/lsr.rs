//! Listing paths in short and in long format, as `ls` does.

use crate::text::{decimal_digits, first_char, joined_lines, push_line, texts, u64_to_string};
use tabular::{Row, Table};
use vstd::prelude::*;
use vstd::string::*;

verus! {

/// The settings of one invocation.
#[derive(Debug)]
pub struct Config {
    /// The paths to list.
    pub paths: Vec<String>,
    /// Use the long format.
    pub long: bool,
    /// List hidden entries of directories too.
    pub show_hidden: bool,
}

/// What the long format shows of one path, as read from its metadata.
#[derive(Debug)]
pub struct Entry {
    /// The path is a directory.
    pub is_dir: bool,
    /// The permission bits.
    pub mode: u32,
    /// The number of hard links.
    pub links: u64,
    /// The numeric id of the owner, and the owner's name where one is known.
    pub uid: u32,
    pub user: Option<String>,
    /// The numeric id of the group, and the group's name where one is known.
    pub gid: u32,
    pub group: Option<String>,
    /// The size in bytes.
    pub size: u64,
    /// The time of the last modification, already formatted.
    pub modified: String,
    /// The path as it is displayed.
    pub path: String,
}

/// Why a listing could not be laid out.
#[derive(Debug, PartialEq, Eq, Clone, Copy, Structural)]
pub enum LayoutError {
    /// The row format does not describe the eight columns of a long listing.
    BadRowFormat,
}

/// The row format of a long listing: kind and permissions, links, owner,
/// group, size, time of modification and path.
pub const ROW_FORMAT: &'static str = "{:<}{:<}  {:>}  {:<}  {:<}  {:>}  {:<}  {:<}";

/// How many columns `tabular` finds in a row format, or `None` for a
/// format that it rejects.
pub uninterp spec fn table_columns(row_spec: Seq<char>) -> Option<nat>;

/// The text that `tabular` lays out for rows of cells under a row format.
pub uninterp spec fn table_text(row_spec: Seq<char>, rows: Seq<Seq<Seq<char>>>) -> Seq<char>;

/// Calls `tabular::Table::new_safe` and asks the table for its
/// `column_count`.
///
/// Trusted: the result is the number of columns that `tabular` reads from
/// the row format, named by [`table_columns`], and `None` exactly when it
/// rejects the format.
#[verifier::external_body]
fn column_count(row_spec: &str) -> (count: Option<usize>)
    ensures
        count matches Some(n) ==> table_columns(row_spec@) == Some(n as nat),
        count is None ==> table_columns(row_spec@) is None,
{
    Table::new_safe(row_spec).ok().map(|table| table.column_count())
}

/// Calls `tabular::Table::new`, `Table::add_row` for each row in order, and
/// formats the table.
///
/// Trusted: the result is the layout named by [`table_text`]. `Table::new`
/// panics on a row format that it rejects and `add_row` on a row whose
/// number of cells is not the number of columns; both are ruled out.
#[verifier::external_body]
fn render_table(row_spec: &str, rows: &Vec<Vec<String>>) -> (text: String)
    requires
        table_columns(row_spec@) is Some,
        forall|i: int| 0 <= i < rows@.len() ==> table_columns(row_spec@) == Some(rows@[i]@.len()),
    ensures
        text@ == table_text(row_spec@, Seq::new(rows@.len(), |i: int| texts(rows@[i]@))),
{
    let mut table = Table::new(row_spec);
    for cells in rows {
        table.add_row(Row::from_cells(cells.iter()));
    }
    table.to_string()
}

/// The owner or group as shown: the name where one is known, else the
/// numeric id.
pub open spec fn name_or_id(name: Option<String>, id: u32) -> Seq<char> {
    match name {
        Some(name) => name@,
        None => decimal_digits(id as nat),
    }
}

/// The eight cells of the row of one entry.
pub open spec fn entry_cells(entry: &Entry) -> Seq<Seq<char>> {
    seq![
        if entry.is_dir {
            seq!['d']
        } else {
            seq!['-']
        },
        mode_text(entry.mode),
        decimal_digits(entry.links as nat),
        name_or_id(entry.user, entry.uid),
        name_or_id(entry.group, entry.gid),
        decimal_digits(entry.size as nat),
        entry.modified@,
        entry.path@,
    ]
}

/// The rows of a long listing, one for each entry in order.
pub open spec fn listing_rows(entries: Seq<Entry>) -> Seq<Seq<Seq<char>>> {
    Seq::new(entries.len(), |i: int| entry_cells(&entries[i]))
}

/// One permission character: `letter` when `mode` has a bit of `bit`,
/// else a dash.
pub open spec fn permission(mode: u32, bit: u32, letter: char) -> char {
    if mode & bit != 0 {
        letter
    } else {
        '-'
    }
}

/// The nine permission characters of `mode`: read, write and execute for
/// the owner, the group and everyone else.
pub open spec fn mode_text(mode: u32) -> Seq<char> {
    seq![
        permission(mode, 0o400, 'r'),
        permission(mode, 0o200, 'w'),
        permission(mode, 0o100, 'x'),
        permission(mode, 0o040, 'r'),
        permission(mode, 0o020, 'w'),
        permission(mode, 0o010, 'x'),
        permission(mode, 0o004, 'r'),
        permission(mode, 0o002, 'w'),
        permission(mode, 0o001, 'x'),
    ]
}

/// Appends one permission character.
fn push_permission(permissions: &mut String, mode: u32, bit: u32, letter: &str)
    requires
        letter@.len() == 1,
    ensures
        final(permissions)@ == old(permissions)@.push(permission(mode, bit, letter@[0])),
{
    proof {
        reveal_strlit("-");
    }
    if mode & bit != 0 {
        permissions.append(letter);
    } else {
        permissions.append("-");
    }
    assert(permissions@ =~= old(permissions)@.push(permission(mode, bit, letter@[0])));
}

/// Formats permission bits the way a long listing shows them, such as
/// `rwxr-xr-x` for `0o755`.
pub fn format_mode(mode: u32) -> (permissions: String)
    ensures
        permissions@ == mode_text(mode),
{
    proof {
        reveal_strlit("r");
        reveal_strlit("w");
        reveal_strlit("x");
    }
    let mut permissions = String::new();
    push_permission(&mut permissions, mode, 0o400, "r");
    push_permission(&mut permissions, mode, 0o200, "w");
    push_permission(&mut permissions, mode, 0o100, "x");
    push_permission(&mut permissions, mode, 0o040, "r");
    push_permission(&mut permissions, mode, 0o020, "w");
    push_permission(&mut permissions, mode, 0o010, "x");
    push_permission(&mut permissions, mode, 0o004, "r");
    push_permission(&mut permissions, mode, 0o002, "w");
    push_permission(&mut permissions, mode, 0o001, "x");
    assert(permissions@ =~= mode_text(mode));
    permissions
}

/// Shows an owner or a group.
fn show_name_or_id(name: &Option<String>, id: u32) -> (shown: String)
    ensures
        shown@ == name_or_id(*name, id),
{
    match name {
        Some(name) => name.clone(),
        None => u64_to_string(id as u64),
    }
}

/// Builds the cells of the row of one entry.
fn entry_row(entry: &Entry) -> (cells: Vec<String>)
    ensures
        texts(cells@) == entry_cells(entry),
{
    proof {
        reveal_strlit("d");
        reveal_strlit("-");
    }
    let mut cells: Vec<String> = Vec::new();
    cells.push(
        String::from_str(
            if entry.is_dir {
                "d"
            } else {
                "-"
            },
        ),
    );
    cells.push(format_mode(entry.mode));
    cells.push(u64_to_string(entry.links));
    cells.push(show_name_or_id(&entry.user, entry.uid));
    cells.push(show_name_or_id(&entry.group, entry.gid));
    cells.push(u64_to_string(entry.size));
    cells.push(entry.modified.clone());
    cells.push(entry.path.clone());
    assert(texts(cells@) =~= entry_cells(entry)) by {
        assert(cells@[0]@ =~= entry_cells(entry)[0]);
    }
    cells
}

/// Lays out a long listing: one row for each entry, the columns aligned
/// by `tabular` under [`ROW_FORMAT`].
pub fn format_output(entries: &Vec<Entry>) -> (r: Result<String, LayoutError>)
    ensures
        table_columns(ROW_FORMAT@) == Some(8nat) ==> r is Ok && r->Ok_0@ == table_text(
            ROW_FORMAT@,
            listing_rows(entries@),
        ),
        table_columns(ROW_FORMAT@) != Some(8nat) ==> r == Err::<String, LayoutError>(
            LayoutError::BadRowFormat,
        ),
{
    match column_count(ROW_FORMAT) {
        Some(8) => {},
        _ => {
            return Err(LayoutError::BadRowFormat);
        },
    }
    let mut rows: Vec<Vec<String>> = Vec::new();
    let mut i: usize = 0;
    while i < entries.len()
        invariant
            i <= entries.len(),
            rows@.len() == i,
            forall|j: int| 0 <= j < i ==> texts(#[trigger] rows@[j]@) == entry_cells(&entries@[j]),
        decreases entries.len() - i,
    {
        let cells = entry_row(&entries[i]);
        rows.push(cells);
        i += 1;
    }
    proof {
        assert forall|j: int| 0 <= j < rows@.len() implies rows@[j]@.len() == 8 by {
            assert(texts(rows@[j]@).len() == 8);
        }
        assert(Seq::new(rows@.len(), |i: int| texts(rows@[i]@)) =~= listing_rows(entries@));
    }
    Ok(render_table(ROW_FORMAT, &rows))
}

/// An entry of a directory is hidden when its name begins with a dot.
pub open spec fn is_hidden(name: Seq<char>) -> bool {
    name.len() > 0 && name[0] == '.'
}

/// Tells whether an entry of a listed directory is shown: hidden entries
/// only on request. A path that was named on the command line is always
/// shown and is not asked about here.
pub fn lists_entry(name: &str, show_hidden: bool) -> (shown: bool)
    ensures
        shown == (show_hidden || !is_hidden(name@)),
{
    show_hidden || match first_char(name) {
        Some(c) => c != '.',
        None => true,
    }
}

/// The paths of the entries, in order.
pub open spec fn paths_of(entries: Seq<Entry>) -> Seq<Seq<char>> {
    Seq::new(entries.len(), |i: int| entries[i].path@)
}

/// Writes the listing of the entries that were found: in the long format
/// the table and a line feed, else one path to a line.
pub fn run(config: &Config, entries: &Vec<Entry>) -> (r: Result<String, LayoutError>)
    ensures
        !config.long ==> r is Ok && r->Ok_0@ == joined_lines(paths_of(entries@)),
        config.long && table_columns(ROW_FORMAT@) == Some(8nat) ==> r is Ok && r->Ok_0@
            == table_text(ROW_FORMAT@, listing_rows(entries@)) + seq!['\n'],
        config.long && table_columns(ROW_FORMAT@) != Some(8nat) ==> r == Err::<
            String,
            LayoutError,
        >(LayoutError::BadRowFormat),
{
    let mut out = String::new();
    if config.long {
        match format_output(entries) {
            Ok(table) => {
                push_line(&mut out, table.as_str());
            },
            Err(e) => {
                return Err(e);
            },
        }
    } else {
        let mut i: usize = 0;
        while i < entries.len()
            invariant
                i <= entries.len(),
                out@ == joined_lines(paths_of(entries@).take(i as int)),
            decreases entries.len() - i,
        {
            proof {
                let next = paths_of(entries@).take(i + 1);
                assert(next.drop_last() =~= paths_of(entries@).take(i as int));
            }
            push_line(&mut out, entries[i].path.as_str());
            i += 1;
        }
        assert(paths_of(entries@).take(i as int) =~= paths_of(entries@));
    }
    Ok(out)
}

} // verus!
