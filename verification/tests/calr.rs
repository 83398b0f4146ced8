use cliutils::calr::{
    format_month, format_year, last_day_in_month, leap_year, month_from_prefix, parse_month, run,
    Config, Date, MonthError,
};

fn date(year: i32, month: u32, day: u32) -> Date {
    Date { year, month, day }
}

#[test]
fn test_parse_month() {
    let res = parse_month("1".to_string());
    assert!(res.is_ok());
    assert_eq!(res.unwrap(), 1u32);

    let res = parse_month("12".to_string());
    assert!(res.is_ok());
    assert_eq!(res.unwrap(), 12u32);

    let res = parse_month("jan".to_string());
    assert!(res.is_ok());
    assert_eq!(res.unwrap(), 1u32);

    let res = parse_month("0".to_string());
    assert!(res.is_err());
    assert_eq!(
        res.unwrap_err().to_string(),
        r#"month "0" not in the range 1 through 12"#
    );

    let res = parse_month("13".to_string());
    assert!(res.is_err());
    assert_eq!(
        res.unwrap_err().to_string(),
        r#"month "13" not in the range 1 through 12"#
    );

    let res = parse_month("foo".to_string());
    assert!(res.is_err());
    assert_eq!(res.unwrap_err().to_string(), r#"Invalid month "foo""#);

    let res = parse_month("ju".to_string());
    assert!(res.is_err());
    assert_eq!(res.unwrap_err().to_string(), r#"Invalid month "ju""#);
}

#[test]
fn test_format_month() {
    let today = date(0, 1, 1);
    let leap_february = vec![
        "   February 2020      ",
        "Su Mo Tu We Th Fr Sa  ",
        "                   1  ",
        " 2  3  4  5  6  7  8  ",
        " 9 10 11 12 13 14 15  ",
        "16 17 18 19 20 21 22  ",
        "23 24 25 26 27 28 29  ",
        "                      ",
    ];
    assert_eq!(format_month(2020, 2, true, today), leap_february);

    let may = vec![
        "        May           ",
        "Su Mo Tu We Th Fr Sa  ",
        "                1  2  ",
        " 3  4  5  6  7  8  9  ",
        "10 11 12 13 14 15 16  ",
        "17 18 19 20 21 22 23  ",
        "24 25 26 27 28 29 30  ",
        "31                    ",
    ];
    assert_eq!(format_month(2020, 5, false, today), may);

    let april_hl = vec![
        "     April 2021       ",
        "Su Mo Tu We Th Fr Sa  ",
        "             1  2  3  ",
        " 4  5  6 \u{1b}[7m 7\u{1b}[0m  8  9 10  ",
        "11 12 13 14 15 16 17  ",
        "18 19 20 21 22 23 24  ",
        "25 26 27 28 29 30     ",
        "                      ",
    ];
    let today = date(2021, 4, 7);
    assert_eq!(format_month(2021, 4, true, today), april_hl);
}

#[test]
fn test_last_day_in_month() {
    assert_eq!(last_day_in_month(2020, 1), date(2020, 1, 31));
    assert_eq!(last_day_in_month(2020, 2), date(2020, 2, 29));
    assert_eq!(last_day_in_month(2020, 4), date(2020, 4, 30));
}

#[test]
fn last_day_agrees_with_chrono() {
    for year in [-4, 0, 1, 1900, 1999, 2000, 2023, 2024, 2100, 9999] {
        for month in 1..=12u32 {
            let last = last_day_in_month(year, month).day;
            assert!(chrono::NaiveDate::from_ymd_opt(year, month, last).is_some());
            assert!(chrono::NaiveDate::from_ymd_opt(year, month, last + 1).is_none());
        }
    }
    assert!(leap_year(2000) && leap_year(2024) && leap_year(-4) && leap_year(0));
    assert!(!leap_year(1900) && !leap_year(2023) && !leap_year(2100) && !leap_year(-1));
}

#[test]
fn parse_month_numbers_and_names() {
    assert_eq!(parse_month("+7".to_string()), Ok(7));
    assert_eq!(parse_month("007".to_string()), Ok(7));
    assert_eq!(parse_month("013".to_string()), Err(MonthError::OutOfRange(13)));
    assert_eq!(
        parse_month("4294967295".to_string()),
        Err(MonthError::OutOfRange(4294967295))
    );
    assert_eq!(
        parse_month("4294967296".to_string()),
        Err(MonthError::Invalid("4294967296".to_string()))
    );
    assert_eq!(parse_month("-1".to_string()), Err(MonthError::Invalid("-1".to_string())));
    assert_eq!(parse_month("".to_string()), Err(MonthError::Invalid("".to_string())));
    assert_eq!(parse_month("JUL".to_string()), Ok(7));
    assert_eq!(parse_month("Jun".to_string()), Ok(6));
    assert_eq!(parse_month("j".to_string()), Err(MonthError::Invalid("j".to_string())));
    assert_eq!(parse_month("ma".to_string()), Err(MonthError::Invalid("ma".to_string())));
    assert_eq!(parse_month("mar".to_string()), Ok(3));
    assert_eq!(parse_month("MAY".to_string()), Ok(5));
    assert_eq!(parse_month("s".to_string()), Ok(9));
    assert_eq!(parse_month("December".to_string()), Ok(12));
    assert_eq!(
        parse_month("Decembers".to_string()),
        Err(MonthError::Invalid("Decembers".to_string()))
    );
}

#[test]
fn month_from_prefix_wants_lower_case() {
    assert_eq!(month_from_prefix("feb"), Some(2));
    assert_eq!(month_from_prefix("Feb"), None);
    assert_eq!(month_from_prefix(""), None);
    assert_eq!(month_from_prefix("a"), None);
    assert_eq!(month_from_prefix("au"), Some(8));
    assert_eq!(month_from_prefix("o"), Some(10));
}

#[test]
fn a_month_always_has_eight_lines_of_twenty_two_columns() {
    let today = date(0, 1, 1);
    for (year, month) in [(2015, 2), (2026, 2), (2020, 8), (2021, 1), (1, 1), (9999, 12)] {
        let lines = format_month(year, month, true, today);
        assert_eq!(lines.len(), 8);
        for line in lines {
            assert_eq!(line.chars().count(), 22, "{:?}", line);
        }
    }
    // February 2015 starts on a Sunday and takes four weeks.
    let lines = format_month(2015, 2, false, today);
    assert_eq!(lines[2], " 1  2  3  4  5  6  7  ");
    assert_eq!(lines[5], "22 23 24 25 26 27 28  ");
    assert_eq!(lines[6], "                      ");
    // August 2020 starts on a Saturday and takes six weeks.
    let lines = format_month(2020, 8, false, today);
    assert_eq!(lines[2], "                   1  ");
    assert_eq!(lines[7], "30 31                 ");
}

#[test]
fn a_highlighted_day_shortens_the_padding_of_a_short_week() {
    let lines = format_month(2021, 4, false, date(2021, 4, 30));
    assert_eq!(lines[0], "       April          ");
    assert_eq!(lines[6], "25 26 27 28 29 \u{1b}[7m30\u{1b}[0m  ");
}

#[test]
fn a_year_has_thirty_six_lines() {
    let lines = format_year(2020, date(2021, 4, 7));
    assert_eq!(lines.len(), 36);
    assert_eq!(lines[0], "                            2020");
    assert_eq!(
        lines[1],
        "      January               February               March          "
    );
    assert_eq!(
        lines[2],
        "Su Mo Tu We Th Fr Sa  Su Mo Tu We Th Fr Sa  Su Mo Tu We Th Fr Sa  "
    );
    assert_eq!(
        lines[3],
        "          1  2  3  4                     1   1  2  3  4  5  6  7  "
    );
    assert_eq!(lines[9], "");
    assert_eq!(
        lines[10],
        "       April                  May                   June          "
    );
    assert_eq!(lines[18], "");
    assert_eq!(lines[27], "");
    assert_eq!(
        lines[28],
        "      October               November              December        "
    );
    assert_eq!(lines[35].chars().count(), 66);
}

#[test]
fn run_selects_month_or_year() {
    let today = date(2021, 4, 7);
    let config = Config { year: None, month: None, show_current_year: false };
    let out = run(&config, today).unwrap();
    assert!(out.starts_with("       April          \nSu Mo Tu We Th Fr Sa  \n"));
    assert!(out.contains("\u{1b}[7m 7\u{1b}[0m"));
    assert_eq!(out.lines().count(), 8);
    assert!(out.ends_with("\n"));

    let config = Config { year: Some(2020), month: Some("feb".to_string()), show_current_year: false };
    let out = run(&config, today).unwrap();
    assert!(out.starts_with("   February 2020      \n"));

    let config = Config { year: None, month: Some("12".to_string()), show_current_year: false };
    let out = run(&config, today).unwrap();
    assert!(out.starts_with("      December        \n"));
    assert!(out.contains(" 1  2  3  4  \n"));

    let config = Config { year: Some(1999), month: None, show_current_year: false };
    let out = run(&config, today).unwrap();
    assert!(out.starts_with("                            1999\n"));
    assert_eq!(out.lines().count(), 36);

    let config = Config { year: None, month: None, show_current_year: true };
    let out = run(&config, today).unwrap();
    assert!(out.starts_with("                            2021\n"));

    let config = Config { year: None, month: Some("nope".to_string()), show_current_year: true };
    assert_eq!(run(&config, today), Err(MonthError::Invalid("nope".to_string())));
}
