use cliutils::input::{Input, ReadError};
use cliutils::uniqr::{collapse, run, Config};

fn config(count: bool) -> Config {
    Config { in_file: "in.txt".to_string(), out_file: None, count }
}

fn uniq(text: &str, count: bool) -> String {
    run(&config(count), &Input::Content(text.as_bytes().to_vec())).unwrap().stdout
}

#[test]
fn uniq_collapses_runs() {
    assert_eq!(uniq("", false), "");
    assert_eq!(uniq("a\n", false), "a\n");
    assert_eq!(uniq("a\na\n", false), "a\n");
    assert_eq!(uniq("a\na\nb\n", false), "a\nb\n");
    assert_eq!(uniq("a\nb\na\n", false), "a\nb\na\n");
    assert_eq!(uniq("a\na\nb\nb\nb\na\n", false), "a\nb\na\n");
}

#[test]
fn uniq_counts_runs() {
    assert_eq!(uniq("a\n", true), "   1 a\n");
    assert_eq!(uniq("a\na\nb\n", true), "   2 a\n   1 b\n");
    assert_eq!(uniq("a\nb\na\na\na\n", true), "   1 a\n   1 b\n   3 a\n");
    let many = "x\n".repeat(12345);
    assert_eq!(uniq(&many, true), "12345 x\n");
}

#[test]
fn uniq_compares_without_trailing_white_space_and_keeps_the_first_line() {
    assert_eq!(uniq("a\na", false), "a\n");
    assert_eq!(uniq("a", false), "a");
    assert_eq!(uniq("a  \na\r\na\n", true), "   3 a  \n");
    assert_eq!(uniq(" a\na\n", false), " a\na\n");
}

#[test]
fn uniq_and_blank_lines() {
    // A run of blank lines at the end is never written.
    assert_eq!(uniq("\n", false), "");
    assert_eq!(uniq("a\n\n\n", true), "   1 a\n");
    // A run of blank lines at the start is written as an empty text.
    assert_eq!(uniq("\n\na\n", false), "a\n");
    assert_eq!(uniq("\n\na\n", true), "   2    1 a\n");
    // A run of blank lines in the middle is written as its first line.
    assert_eq!(uniq("a\n \n\nb\n", true), "   1 a\n   2  \n   1 b\n");
}

#[test]
fn uniq_reports_an_input_that_cannot_be_opened() {
    let res = run(&config(false), &Input::Unreadable("No such file (os error 2)".to_string()));
    assert_eq!(res.unwrap_err(), "in.txt: No such file (os error 2)");
}

#[test]
fn uniq_stops_at_a_line_that_is_no_text() {
    let report = run(&config(true), &Input::Content(b"a\na\nb\n\xff\nc\n".to_vec())).unwrap();
    assert_eq!(report.stdout, "   2 a\n");
    assert_eq!(report.failed, Some(ReadError::InvalidUtf8));
}

#[test]
fn collapse_with_and_without_the_end() {
    let lines = vec!["a\n".to_string(), "a\n".to_string(), "b\n".to_string()];
    assert_eq!(collapse(&config(false), &lines, true), "a\nb\n");
    assert_eq!(collapse(&config(false), &lines, false), "a\n");
}
