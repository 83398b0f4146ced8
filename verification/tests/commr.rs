use cliutils::commr::{compare, merge, run, Config, Order};
use cliutils::input::Input;

fn config(one: bool, two: bool, three: bool, insensitive: bool, delimiter: &str) -> Config {
    Config {
        file1: "a.txt".to_string(),
        file2: "b.txt".to_string(),
        suppress_unique1: !one,
        suppress_unique2: !two,
        suppress_common: !three,
        insensitive,
        delimiter: delimiter.to_string(),
    }
}

fn content(text: &str) -> Input {
    Input::Content(text.as_bytes().to_vec())
}

#[test]
fn compare_orders_texts_as_strings_are_ordered() {
    let texts = ["", "a", "A", "ab", "b", "\u{e9}", "z", "a\u{0}", "\u{10000}", "\u{ffff}"];
    for a in texts {
        for b in texts {
            let expected = if a < b {
                Order::Less
            } else if a > b {
                Order::Greater
            } else {
                Order::Equal
            };
            assert_eq!(compare(a, b), expected, "{:?} {:?}", a, b);
        }
    }
}

#[test]
fn comm_three_columns() {
    let out = run(&config(true, true, true, false, "\t"), &content("a\nb\nd\n"), &content("b\nc\n"));
    assert_eq!(out, Ok("a\n\t\tb\n\tc\nd\n".to_string()));
}

#[test]
fn comm_suppressed_columns_take_their_delimiters_along() {
    let first = content("a\nb\nd\n");
    let second = content("b\nc\n");
    assert_eq!(
        run(&config(false, true, true, false, "\t"), &first, &second),
        Ok("\tb\nc\n".to_string())
    );
    assert_eq!(
        run(&config(true, false, true, false, "\t"), &first, &second),
        Ok("a\n\tb\nd\n".to_string())
    );
    assert_eq!(
        run(&config(true, true, false, false, "--"), &first, &second),
        Ok("a\n--c\nd\n".to_string())
    );
    assert_eq!(
        run(&config(false, false, true, false, "\t"), &first, &second),
        Ok("b\n".to_string())
    );
    assert_eq!(run(&config(false, false, false, false, "\t"), &first, &second), Ok(String::new()));
}

#[test]
fn comm_without_regard_to_case_writes_lower_case() {
    let first = content("Apple\nBanana\n");
    let second = content("apple\ncherry\n");
    assert_eq!(
        run(&config(true, true, true, true, ":"), &first, &second),
        Ok("::apple\nbanana\n:cherry\n".to_string())
    );
    assert_eq!(
        run(&config(true, true, true, false, ":"), &first, &second),
        Ok("Apple\nBanana\n:apple\n:cherry\n".to_string())
    );
}

#[test]
fn comm_refusals() {
    let mut both = config(true, true, true, false, "\t");
    both.file1 = "-".to_string();
    both.file2 = "-".to_string();
    assert_eq!(
        run(&both, &content(""), &content("")),
        Err("Both input files cannot be STDIN (\"-\")".to_string())
    );
    let settings = config(true, true, true, false, "\t");
    let missing = Input::Unreadable("No such file or directory (os error 2)".to_string());
    assert_eq!(
        run(&settings, &missing, &missing),
        Err("a.txt: No such file or directory (os error 2)".to_string())
    );
    assert_eq!(
        run(&settings, &content(""), &missing),
        Err("b.txt: No such file or directory (os error 2)".to_string())
    );
}

#[test]
fn comm_reads_each_input_up_to_a_line_that_is_no_text() {
    let first = Input::Content(b"a\n\xff\nz\n".to_vec());
    let second = content("a\nb\n");
    assert_eq!(
        run(&config(true, true, true, false, "\t"), &first, &second),
        Ok("\t\ta\n\tb\n".to_string())
    );
}

#[test]
fn merge_of_empty_inputs() {
    let settings = config(true, true, true, false, "\t");
    let none: Vec<String> = vec![];
    let some = vec!["x".to_string(), "y".to_string()];
    assert_eq!(merge(&settings, &none, &none), "");
    assert_eq!(merge(&settings, &some, &none), "x\ny\n");
    assert_eq!(merge(&settings, &none, &some), "\tx\n\ty\n");
}
