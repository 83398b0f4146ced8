use cliutils::headr::{run, Config};
use cliutils::input::{Input, ReadError};

fn config(files: &[&str], lines: u64, bytes: Option<usize>) -> Config {
    Config { files: files.iter().map(|name| name.to_string()).collect(), lines, bytes }
}

#[test]
fn head_lines_of_one_input() {
    let input = vec![Input::Content(b"1\n2\r\n3\n4".to_vec())];
    assert_eq!(run(&config(&["a"], 2, None), &input).stdout, "1\n2\r\n");
    assert_eq!(run(&config(&["a"], 4, None), &input).stdout, "1\n2\r\n3\n4");
    assert_eq!(run(&config(&["a"], 10, None), &input).stdout, "1\n2\r\n3\n4");
    assert_eq!(run(&config(&["a"], 0, None), &input).stdout, "");
    assert_eq!(run(&config(&["a"], u64::MAX, None), &input).stdout, "1\n2\r\n3\n4");
}

#[test]
fn head_bytes_are_decoded_leniently() {
    let input = vec![Input::Content("\u{d6}ne\n".as_bytes().to_vec())];
    assert_eq!(run(&config(&["a"], 10, Some(1)), &input).stdout, "\u{fffd}");
    assert_eq!(run(&config(&["a"], 10, Some(2)), &input).stdout, "\u{d6}");
    assert_eq!(run(&config(&["a"], 10, Some(0)), &input).stdout, "");
    assert_eq!(run(&config(&["a"], 10, Some(100)), &input).stdout, "\u{d6}ne\n");
}

#[test]
fn head_writes_headers_for_several_inputs() {
    let inputs = vec![
        Input::Content(b"a\nb\n".to_vec()),
        Input::Unreadable("Permission denied (os error 13)".to_string()),
        Input::Content(b"c\nd\n".to_vec()),
    ];
    let out = run(&config(&["x", "y", "z"], 1, None), &inputs);
    assert_eq!(out.stdout, "==> x <==\na\n\n==> z <==\nc\n");
    assert_eq!(out.stderr, vec!["y: Permission denied (os error 13)".to_string()]);
    assert_eq!(out.failed, None);
}

#[test]
fn head_fails_only_on_lines_that_it_reads() {
    let inputs = vec![Input::Content(b"good\n\xff\n".to_vec()), Input::Content(b"next\n".to_vec())];
    let out = run(&config(&["x", "y"], 1, None), &inputs);
    assert_eq!(out.stdout, "==> x <==\ngood\n\n==> y <==\nnext\n");
    assert_eq!(out.failed, None);
    let out = run(&config(&["x", "y"], 2, None), &inputs);
    assert_eq!(out.stdout, "==> x <==\ngood\n");
    assert_eq!(out.failed, Some(ReadError::InvalidUtf8));
    let out = run(&config(&["x", "y"], 2, Some(6)), &inputs);
    assert_eq!(out.stdout, "==> x <==\ngood\n\u{fffd}\n==> y <==\nnext\n");
    assert_eq!(out.failed, None);
}
