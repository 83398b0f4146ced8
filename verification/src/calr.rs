//! Laying out the calendar of a month or a year, as `cal` does.

use crate::decimal::{decimal_unsigned, parse_unsigned};
use crate::text::{
    align_center, align_left, align_right, decimal_digits, i64_to_string, join_lines,
    joined_lines, lowercase_of, pad_center, pad_left, pad_right, push_spaces, signed_digits,
    spaces, starts_with, texts, to_lowercase, u64_to_string,
};
use chrono::{Datelike, NaiveDate};
use vstd::prelude::*;
use vstd::string::*;

verus! {

/// The settings of one invocation.
#[derive(Debug)]
pub struct Config {
    /// The year, from 1 to 9999.
    pub year: Option<i32>,
    /// The month, as a number or as the beginning of a name.
    pub month: Option<String>,
    /// Show the whole current year.
    pub show_current_year: bool,
}

/// Why a month was rejected.
#[derive(Debug, PartialEq, Eq, Clone)]
pub enum MonthError {
    /// The text is a number, but not one from 1 to 12.
    OutOfRange(u32),
    /// The text is no number and does not begin exactly one month name.
    Invalid(String),
}

/// The English name of month `month`, counted from one.
pub open spec fn month_name(month: int) -> Seq<char> {
    if month == 1 {
        "January"@
    } else if month == 2 {
        "February"@
    } else if month == 3 {
        "March"@
    } else if month == 4 {
        "April"@
    } else if month == 5 {
        "May"@
    } else if month == 6 {
        "June"@
    } else if month == 7 {
        "July"@
    } else if month == 8 {
        "August"@
    } else if month == 9 {
        "September"@
    } else if month == 10 {
        "October"@
    } else if month == 11 {
        "November"@
    } else {
        "December"@
    }
}

/// The name of month `month` in lower case.
pub open spec fn month_name_lower(month: int) -> Seq<char> {
    if month == 1 {
        "january"@
    } else if month == 2 {
        "february"@
    } else if month == 3 {
        "march"@
    } else if month == 4 {
        "april"@
    } else if month == 5 {
        "may"@
    } else if month == 6 {
        "june"@
    } else if month == 7 {
        "july"@
    } else if month == 8 {
        "august"@
    } else if month == 9 {
        "september"@
    } else if month == 10 {
        "october"@
    } else if month == 11 {
        "november"@
    } else {
        "december"@
    }
}

/// The month whose lower-case name begins with `prefix`, when there is
/// exactly one such month.
pub open spec fn month_with_prefix(prefix: Seq<char>) -> Option<u32> {
    if exists|m: u32| 1 <= m <= 12 && is_only_month_with_prefix(prefix, m) {
        Some(choose|m: u32| 1 <= m <= 12 && is_only_month_with_prefix(prefix, m))
    } else {
        None
    }
}

/// Month `m` begins with `prefix`, and no other month does.
pub open spec fn is_only_month_with_prefix(prefix: Seq<char>, m: u32) -> bool {
    &&& prefix.is_prefix_of(month_name_lower(m as int))
    &&& forall|other: u32|
        1 <= other <= 12 && other != m ==> !prefix.is_prefix_of(
            #[trigger] month_name_lower(other as int),
        )
}

/// What a month given as text denotes, where `lowered` is the text in
/// lower case.
///
/// A number must lie between 1 and 12. Anything else must be the
/// beginning of exactly one month name, whatever its case.
pub open spec fn month_of(month: Seq<char>, lowered: Seq<char>) -> Result<u32, MonthFault> {
    match decimal_unsigned(month, u32::MAX as nat) {
        Some(num) => if 1 <= num <= 12 {
            Ok(num as u32)
        } else {
            Err(MonthFault::OutOfRange(num as u32))
        },
        None => match month_with_prefix(lowered) {
            Some(m) => Ok(m),
            None => Err(MonthFault::Invalid(month)),
        },
    }
}

/// A [`MonthError`] as a value of specifications.
pub enum MonthFault {
    OutOfRange(u32),
    Invalid(Seq<char>),
}

impl View for MonthError {
    type V = MonthFault;

    open spec fn view(&self) -> MonthFault {
        match self {
            MonthError::OutOfRange(num) => MonthFault::OutOfRange(*num),
            MonthError::Invalid(text) => MonthFault::Invalid(text@),
        }
    }
}

/// The message of a rejected month.
pub open spec fn month_message(fault: MonthFault) -> Seq<char> {
    match fault {
        MonthFault::OutOfRange(num) => "month \""@ + decimal_digits(num as nat)
            + "\" not in the range 1 through 12"@,
        MonthFault::Invalid(text) => "Invalid month \""@ + text + "\""@,
    }
}

impl MonthError {
    /// The message shown to the user.
    pub fn to_string(&self) -> (message: String)
        ensures
            message@ == month_message(self@),
    {
        match self {
            MonthError::OutOfRange(num) => {
                let mut message = String::from_str("month \"");
                message.append(u64_to_string(*num as u64).as_str());
                message.append("\" not in the range 1 through 12");
                message
            },
            MonthError::Invalid(text) => {
                let mut message = String::from_str("Invalid month \"");
                message.append(text.as_str());
                message.append("\"");
                message
            },
        }
    }
}

/// The name of a month in lower case.
fn lower_name(month: u32) -> (name: &'static str)
    requires
        1 <= month <= 12,
    ensures
        name@ == month_name_lower(month as int),
{
    match month {
        1 => "january",
        2 => "february",
        3 => "march",
        4 => "april",
        5 => "may",
        6 => "june",
        7 => "july",
        8 => "august",
        9 => "september",
        10 => "october",
        11 => "november",
        _ => "december",
    }
}

/// Finds the month whose name begins with `lowered`, which must already
/// be in lower case. `None` when no month or more than one begins so.
pub fn month_from_prefix(lowered: &str) -> (found: Option<u32>)
    ensures
        found == month_with_prefix(lowered@),
        found matches Some(m) ==> 1 <= m <= 12,
{
    let mut found: Option<u32> = None;
    let mut several: bool = false;
    let mut m: u32 = 1;
    while m <= 12
        invariant
            1 <= m <= 13,
            !several ==> (found matches Some(f) ==> 1 <= f < m && lowered@.is_prefix_of(
                month_name_lower(f as int),
            )),
            !several ==> forall|other: u32|
                1 <= other < m && found != Some(other) ==> !lowered@.is_prefix_of(
                    #[trigger] month_name_lower(other as int),
                ),
            several ==> exists|a: u32, b: u32|
                1 <= a < b < m && lowered@.is_prefix_of(month_name_lower(a as int))
                    && lowered@.is_prefix_of(month_name_lower(b as int)),
        decreases 13 - m,
    {
        if starts_with(lower_name(m), lowered) {
            if found.is_some() {
                several = true;
            } else {
                found = Some(m);
            }
        }
        m += 1;
    }
    if several {
        proof {
            let (a, b) = choose|a: u32, b: u32|
                1 <= a < b < 13 && lowered@.is_prefix_of(month_name_lower(a as int))
                    && lowered@.is_prefix_of(month_name_lower(b as int));
            assert forall|c: u32| 1 <= c <= 12 implies !is_only_month_with_prefix(
                lowered@,
                c,
            ) by {
                if c == a {
                    assert(lowered@.is_prefix_of(month_name_lower(b as int)));
                } else {
                    assert(lowered@.is_prefix_of(month_name_lower(a as int)));
                }
            }
        }
        None
    } else {
        proof {
            match found {
                Some(f) => {
                    assert(is_only_month_with_prefix(lowered@, f));
                    let c = choose|c: u32| 1 <= c <= 12 && is_only_month_with_prefix(lowered@, c);
                    if c != f {
                        assert(!lowered@.is_prefix_of(month_name_lower(f as int)));
                    }
                },
                None => {
                    assert forall|c: u32| 1 <= c <= 12 implies !is_only_month_with_prefix(
                        lowered@,
                        c,
                    ) by {
                        assert(!lowered@.is_prefix_of(month_name_lower(c as int)));
                    }
                },
            }
        }
        found
    }
}

/// Parses a month given as a number or as the beginning of a month name.
pub fn parse_month(month: String) -> (r: Result<u32, MonthError>)
    ensures
        month_of(month@, lowercase_of(month@)) matches Ok(m) ==> r == Ok::<u32, MonthError>(m) && 1
            <= m <= 12,
        month_of(month@, lowercase_of(month@)) matches Err(fault) ==> r is Err && r->Err_0@
            == fault,
{
    match parse_unsigned(month.as_str(), 0xffff_ffffu64) {
        Some(num) => {
            if num >= 1 && num <= 12 {
                Ok(num as u32)
            } else {
                Err(MonthError::OutOfRange(num as u32))
            }
        },
        None => {
            let lowered = to_lowercase(month.as_str());
            match month_from_prefix(lowered.as_str()) {
                Some(m) => Ok(m),
                None => Err(MonthError::Invalid(month)),
            }
        },
    }
}

/// A day of the calendar.
#[derive(Debug, PartialEq, Eq, Clone, Copy, Structural)]
pub struct Date {
    pub year: i32,
    pub month: u32,
    pub day: u32,
}

/// The first year that `chrono` can represent.
pub const MIN_YEAR: i32 = -262143;

/// The last year that `chrono` can represent.
pub const MAX_YEAR: i32 = 262142;

/// The width of a month without the gap that follows it.
pub const MONTH_WIDTH: usize = 20;

/// Leap years of the Gregorian calendar.
pub open spec fn is_leap_year(year: int) -> bool {
    year % 4 == 0 && (year % 100 != 0 || year % 400 == 0)
}

/// The number of days of a month.
pub open spec fn days_in_month(year: int, month: int) -> int {
    if month == 2 {
        if is_leap_year(year) {
            29
        } else {
            28
        }
    } else if month == 4 || month == 6 || month == 9 || month == 11 {
        30
    } else {
        31
    }
}

/// The dates that exist and that `chrono` can represent.
pub open spec fn is_calendar_date(year: int, month: int, day: int) -> bool {
    &&& MIN_YEAR <= year <= MAX_YEAR
    &&& 1 <= month <= 12
    &&& 1 <= day <= days_in_month(year, month)
}

/// The number that `chrono` gives the weekday of a date, Sunday being 1
/// and Saturday 7.
pub uninterp spec fn weekday_from_sunday(year: int, month: int, day: int) -> int;

/// Calls `chrono::NaiveDate::from_ymd_opt`, and for a date `weekday` and
/// `number_from_sunday`.
///
/// Trusted: there is a result exactly for the dates that exist within the
/// years `chrono` can represent, and it is the weekday number from 1 for
/// Sunday to 7 for Saturday, named by [`weekday_from_sunday`].
#[verifier::external_body]
fn weekday_number(year: i32, month: u32, day: u32) -> (number: Option<u32>)
    ensures
        number is Some <==> is_calendar_date(year as int, month as int, day as int),
        number matches Some(n) ==> n == weekday_from_sunday(year as int, month as int, day as int)
            && 1 <= n <= 7,
{
    NaiveDate::from_ymd_opt(year, month, day).map(|date| date.weekday().number_from_sunday())
}

/// Tells whether `year` is a leap year.
pub fn leap_year(year: i32) -> (leap: bool)
    ensures
        leap == is_leap_year(year as int),
{
    year % 4 == 0 && (year % 100 != 0 || year % 400 == 0)
}

/// The last day of a month.
pub fn last_day_in_month(year: i32, month: u32) -> (date: Date)
    requires
        1 <= month <= 12,
    ensures
        date == (Date { year, month, day: days_in_month(year as int, month as int) as u32 }),
{
    let day: u32 = if month == 2 {
        if leap_year(year) {
            29
        } else {
            28
        }
    } else if month == 4 || month == 6 || month == 9 || month == 11 {
        30
    } else {
        31
    };
    Date { year, month, day }
}

/// One day as a cell of two characters; today's cell is wrapped in the
/// escape sequences that switch reverse video on and off.
pub open spec fn day_cell(year: int, month: int, day: int, today: Date) -> Seq<char> {
    let number = pad_left(decimal_digits(day as nat), 2);
    if today.year == year && today.month == month && today.day == day {
        "\u{1b}[7m"@ + number + "\u{1b}[0m"@
    } else {
        number
    }
}

/// The cells of a month in order: an empty cell for each weekday before
/// the first of the month, then one cell for each day.
pub open spec fn month_cells(year: int, month: int, today: Date) -> Seq<Seq<char>> {
    Seq::new((weekday_from_sunday(year, month, 1) - 1) as nat, |i: int| spaces(2)) + Seq::new(
        days_in_month(year, month) as nat,
        |i: int| day_cell(year, month, i + 1, today),
    )
}

/// Cells joined by single spaces.
pub open spec fn joined_cells(cells: Seq<Seq<char>>) -> Seq<char>
    decreases cells.len(),
{
    if cells.len() == 0 {
        Seq::empty()
    } else if cells.len() == 1 {
        cells[0]
    } else {
        joined_cells(cells.drop_last()) + seq![' '] + cells.last()
    }
}

/// The cells of week `week`, counted from zero: seven of them, fewer in
/// the last week.
pub open spec fn week_cells(cells: Seq<Seq<char>>, week: int) -> Seq<Seq<char>> {
    cells.subrange(
        7 * week,
        if 7 * week + 7 <= cells.len() {
            7 * week + 7
        } else {
            cells.len() as int
        },
    )
}

/// The line of week `week`: its cells, filled up to the width of a month,
/// and the gap of two spaces.
pub open spec fn week_line(cells: Seq<Seq<char>>, week: int) -> Seq<char> {
    pad_right(joined_cells(week_cells(cells, week)), MONTH_WIDTH as nat) + spaces(2)
}

/// The title of a month: its name, followed by the year on request.
pub open spec fn month_title(year: int, month: int, print_year: bool) -> Seq<char> {
    if print_year {
        month_name(month) + seq![' '] + signed_digits(year)
    } else {
        month_name(month)
    }
}

/// Line `i` of the eight lines of a month: the centered title, the names
/// of the weekdays, the weeks, and blank lines to fill up.
pub open spec fn month_line(cells: Seq<Seq<char>>, title: Seq<char>, i: int) -> Seq<char> {
    if i == 0 {
        pad_center(title, MONTH_WIDTH as nat) + spaces(2)
    } else if i == 1 {
        "Su Mo Tu We Th Fr Sa  "@
    } else if 7 * (i - 2) < cells.len() {
        week_line(cells, i - 2)
    } else {
        spaces((MONTH_WIDTH + 2) as nat)
    }
}

/// The eight lines of a month.
pub open spec fn month_lines(year: int, month: int, print_year: bool, today: Date) -> Seq<
    Seq<char>,
> {
    Seq::new(
        8,
        |i: int| month_line(month_cells(year, month, today), month_title(year, month, print_year), i),
    )
}

/// The name of a month.
fn name_of_month(month: u32) -> (name: &'static str)
    requires
        1 <= month <= 12,
    ensures
        name@ == month_name(month as int),
{
    match month {
        1 => "January",
        2 => "February",
        3 => "March",
        4 => "April",
        5 => "May",
        6 => "June",
        7 => "July",
        8 => "August",
        9 => "September",
        10 => "October",
        11 => "November",
        _ => "December",
    }
}

/// Builds the cell of one day.
fn make_day_cell(year: i32, month: u32, day: u32, today: Date) -> (cell: String)
    ensures
        cell@ == day_cell(year as int, month as int, day as int, today),
{
    let number = align_right(u64_to_string(day as u64).as_str(), 2);
    if today.year == year && today.month == month && today.day == day {
        let mut cell = String::from_str("\u{1b}[7m");
        cell.append(number.as_str());
        cell.append("\u{1b}[0m");
        cell
    } else {
        number
    }
}

/// Builds the cells of a month.
fn make_month_cells(year: i32, month: u32, today: Date) -> (cells: Vec<String>)
    requires
        1 <= month <= 12,
        MIN_YEAR <= year <= MAX_YEAR,
    ensures
        texts(cells@) == month_cells(year as int, month as int, today),
        28 <= cells@.len() <= 37,
{
    let first: u32 = weekday_number(year, month, 1).unwrap();
    let last: u32 = last_day_in_month(year, month).day;
    let mut cells: Vec<String> = Vec::new();
    let mut blank: u32 = 1;
    while blank < first
        invariant
            1 <= blank <= first,
            cells@.len() == blank - 1,
            forall|i: int| 0 <= i < cells@.len() ==> cells@[i]@ == spaces(2),
        decreases first - blank,
    {
        let mut cell = String::new();
        push_spaces(&mut cell, 2);
        cells.push(cell);
        blank += 1;
    }
    let mut day: u32 = 1;
    while day <= last
        invariant
            1 <= day <= last + 1,
            last <= 31,
            1 <= first <= 7,
            cells@.len() == first - 1 + day - 1,
            forall|i: int| 0 <= i < first - 1 ==> cells@[i]@ == spaces(2),
            forall|i: int|
                first - 1 <= i < cells@.len() ==> cells@[i]@ == day_cell(
                    year as int,
                    month as int,
                    i - (first - 1) + 1,
                    today,
                ),
        decreases last + 1 - day,
    {
        cells.push(make_day_cell(year, month, day, today));
        day += 1;
    }
    assert(texts(cells@) =~= month_cells(year as int, month as int, today));
    cells
}

/// Joins the cells from `from` up to `to` by single spaces.
fn join_cells(cells: &Vec<String>, from: usize, to: usize) -> (line: String)
    requires
        from <= to <= cells@.len(),
    ensures
        line@ == joined_cells(texts(cells@).subrange(from as int, to as int)),
{
    let mut line = String::new();
    let mut j: usize = from;
    while j < to
        invariant
            from <= j <= to <= cells@.len(),
            line@ == joined_cells(texts(cells@).subrange(from as int, j as int)),
        decreases to - j,
    {
        proof {
            reveal_strlit(" ");
            let next = texts(cells@).subrange(from as int, j + 1);
            assert(next.drop_last() =~= texts(cells@).subrange(from as int, j as int));
            assert(next.last() == cells@[j as int]@);
        }
        if j > from {
            line.append(" ");
        }
        line.append(cells[j].as_str());
        assert(line@ =~= joined_cells(texts(cells@).subrange(from as int, j + 1)));
        j += 1;
    }
    line
}

/// Lays out one month as eight lines of twenty-two characters: the title,
/// the weekday names, the weeks, and blank lines to fill up. The title
/// names the year on request, and today's cell is highlighted.
pub fn format_month(year: i32, month: u32, print_year: bool, today: Date) -> (lines: Vec<String>)
    requires
        1 <= month <= 12,
        MIN_YEAR <= year <= MAX_YEAR,
    ensures
        texts(lines@) == month_lines(year as int, month as int, print_year, today),
        lines@.len() == 8,
{
    let ghost title = month_title(year as int, month as int, print_year);
    let ghost all = month_cells(year as int, month as int, today);
    let cells = make_month_cells(year, month, today);
    let mut lines: Vec<String> = Vec::new();
    let mut header = if print_year {
        proof {
            reveal_strlit(" ");
        }
        let mut name = String::from_str(name_of_month(month));
        name.append(" ");
        name.append(i64_to_string(year as i64).as_str());
        assert(name@ =~= title);
        align_center(name.as_str(), MONTH_WIDTH)
    } else {
        align_center(name_of_month(month), MONTH_WIDTH)
    };
    push_spaces(&mut header, 2);
    lines.push(header);
    lines.push(String::from_str("Su Mo Tu We Th Fr Sa  "));
    let mut week: usize = 0;
    while 7 * week < cells.len()
        invariant
            texts(cells@) == all,
            28 <= cells@.len() <= 37,
            week <= 6,
            7 * week < cells@.len() + 7,
            lines@.len() == 2 + week,
            forall|i: int| 0 <= i < lines@.len() ==> lines@[i]@ == month_line(all, title, i),
        decreases cells@.len() + 7 - 7 * week,
    {
        let from: usize = 7 * week;
        let to: usize = if from + 7 <= cells.len() {
            from + 7
        } else {
            cells.len()
        };
        let joined = join_cells(&cells, from, to);
        let mut line = align_left(joined.as_str(), MONTH_WIDTH);
        push_spaces(&mut line, 2);
        assert(line@ == week_line(all, week as int));
        lines.push(line);
        week += 1;
    }
    while lines.len() < 8
        invariant
            texts(cells@) == all,
            lines@.len() <= 8,
            7 * (lines@.len() - 2) >= cells@.len(),
            forall|i: int| 0 <= i < lines@.len() ==> lines@[i]@ == month_line(all, title, i),
        decreases 8 - lines@.len(),
    {
        let mut line = String::new();
        push_spaces(&mut line, MONTH_WIDTH + 2);
        lines.push(line);
    }
    assert(texts(lines@) =~= month_lines(year as int, month as int, print_year, today));
    lines
}

/// Line `line` of block `block` of the calendar of a year: the lines of
/// three months side by side.
pub open spec fn block_line(year: int, today: Date, block: int, line: int) -> Seq<char> {
    month_lines(year, 3 * block + 1, false, today)[line] + month_lines(
        year,
        3 * block + 2,
        false,
        today,
    )[line] + month_lines(year, 3 * block + 3, false, today)[line]
}

/// Line `i` of the calendar of a year: the year at the right edge of a
/// field of 32 characters, then four blocks of three months side by
/// side, with an empty line between blocks.
pub open spec fn year_line(year: int, today: Date, i: int) -> Seq<char> {
    if i == 0 {
        pad_left(signed_digits(year), 32)
    } else if (i - 1) % 9 == 8 {
        Seq::empty()
    } else {
        block_line(year, today, (i - 1) / 9, (i - 1) % 9)
    }
}

/// The 36 lines of the calendar of a year.
pub open spec fn year_lines(year: int, today: Date) -> Seq<Seq<char>> {
    Seq::new(36, |i: int| year_line(year, today, i))
}

/// The lines that an invocation writes, once its month is parsed.
///
/// The whole current year on request; the whole of a year given without a
/// month; else one month, which is the current one unless a month is given,
/// of the given year or else the current one. The title of a single month
/// names the year when a year is given.
pub open spec fn report_lines(
    year: Option<i32>,
    month: Option<u32>,
    show_current_year: bool,
    today: Date,
) -> Seq<Seq<char>> {
    if show_current_year {
        year_lines(today.year as int, today)
    } else if month is None && year is Some {
        year_lines(year->0 as int, today)
    } else {
        month_lines(
            (if year is Some {
                year->0
            } else {
                today.year
            }) as int,
            (if month is Some {
                month->0
            } else {
                today.month
            }) as int,
            year is Some,
            today,
        )
    }
}

/// Lays out one block of three months side by side.
fn format_block(year: i32, block: u32, today: Date) -> (rows: Vec<String>)
    requires
        MIN_YEAR <= year <= MAX_YEAR,
        block < 4,
    ensures
        rows@.len() == 8,
        forall|line: int|
            0 <= line < 8 ==> (#[trigger] rows@[line])@ == block_line(
                year as int,
                today,
                block as int,
                line,
            ),
{
    let left = format_month(year, 3 * block + 1, false, today);
    let middle = format_month(year, 3 * block + 2, false, today);
    let right = format_month(year, 3 * block + 3, false, today);
    let mut rows: Vec<String> = Vec::new();
    let mut line: usize = 0;
    while line < 8
        invariant
            line <= 8,
            left@.len() == 8,
            middle@.len() == 8,
            right@.len() == 8,
            texts(left@) == month_lines(year as int, 3 * block + 1, false, today),
            texts(middle@) == month_lines(year as int, 3 * block + 2, false, today),
            texts(right@) == month_lines(year as int, 3 * block + 3, false, today),
            rows@.len() == line,
            forall|l: int|
                0 <= l < line ==> (#[trigger] rows@[l])@ == block_line(
                    year as int,
                    today,
                    block as int,
                    l,
                ),
        decreases 8 - line,
    {
        assert(texts(left@)[line as int] == left@[line as int]@);
        assert(texts(middle@)[line as int] == middle@[line as int]@);
        assert(texts(right@)[line as int] == right@[line as int]@);
        let mut row = left[line].clone();
        row.append(middle[line].as_str());
        row.append(right[line].as_str());
        rows.push(row);
        line += 1;
    }
    rows
}

/// Where line `line` of block `block` stands in the calendar of a year.
proof fn lemma_year_line_index(block: int, line: int)
    requires
        0 <= block,
        0 <= line < 9,
    ensures
        (9 * block + line) / 9 == block,
        (9 * block + line) % 9 == line,
{
}

/// Lays out the calendar of a year.
pub fn format_year(year: i32, today: Date) -> (lines: Vec<String>)
    requires
        MIN_YEAR <= year <= MAX_YEAR,
    ensures
        texts(lines@) == year_lines(year as int, today),
{
    let mut lines: Vec<String> = Vec::new();
    lines.push(align_right(i64_to_string(year as i64).as_str(), 32));
    let mut block: u32 = 0;
    while block < 4
        invariant
            block <= 4,
            MIN_YEAR <= year <= MAX_YEAR,
            lines@.len() == 1 + 9 * block,
            forall|i: int|
                0 <= i < lines@.len() ==> (#[trigger] lines@[i])@ == year_line(
                    year as int,
                    today,
                    i,
                ),
        decreases 4 - block,
    {
        let mut rows = format_block(year, block, today);
        let ghost before = lines@;
        let ghost added = rows@;
        lines.append(&mut rows);
        lines.push(String::new());
        proof {
            assert forall|i: int| 0 <= i < lines@.len() implies (#[trigger] lines@[i])@
                == year_line(year as int, today, i) by {
                if i >= before.len() {
                    let line = i - before.len();
                    lemma_year_line_index(block as int, line);
                    if line < 8 {
                        assert(lines@[i] == added[line]);
                    }
                }
            }
        }
        block += 1;
    }
    lines.pop();
    assert(texts(lines@) =~= year_lines(year as int, today));
    lines
}

/// Writes the calendar that the settings ask for, given today's date.
///
/// A month that cannot be parsed is rejected before anything is laid out.
pub fn run(config: &Config, today: Date) -> (r: Result<String, MonthError>)
    requires
        is_calendar_date(today.year as int, today.month as int, today.day as int),
        config.year matches Some(year) ==> MIN_YEAR <= year <= MAX_YEAR,
    ensures
        config.month matches Some(text) ==> (month_of(text@, lowercase_of(text@)) matches Err(
            fault,
        ) ==> r is Err && r->Err_0@ == fault),
        config.month matches Some(text) ==> (month_of(text@, lowercase_of(text@)) matches Ok(m)
            ==> r is Ok && r->Ok_0@ == joined_lines(
            report_lines(config.year, Some(m), config.show_current_year, today),
        )),
        config.month is None ==> r is Ok && r->Ok_0@ == joined_lines(
            report_lines(config.year, None, config.show_current_year, today),
        ),
{
    let month: Option<u32> = match &config.month {
        Some(text) => match parse_month(text.clone()) {
            Ok(m) => Some(m),
            Err(e) => {
                return Err(e);
            },
        },
        None => None,
    };
    let lines = if config.show_current_year {
        format_year(today.year, today)
    } else if month.is_none() && config.year.is_some() {
        format_year(config.year.unwrap(), today)
    } else {
        let year: i32 = match config.year {
            Some(year) => year,
            None => today.year,
        };
        let month: u32 = match month {
            Some(month) => month,
            None => today.month,
        };
        format_month(year, month, config.year.is_some(), today)
    };
    Ok(join_lines(&lines))
}

} // verus!
