use cliutils::tailr::TakeValue::{PlusZero, TakeNum};
use cliutils::input::Input;
use cliutils::tailr::{
    count_lines_bytes, get_start_index, print_bytes, print_lines, run, Config, Extent, TakeValue,
};

const TWELVE: &str = "one\ntwo\nthree\nfour\nfive\nsix\nseven\neight\nnine\nten\neleven\ntwelve\n";

const TEN: &str = "one\ntwo\nthree\nfour\nfive\nsix\nseven\neight\nnine\nten\n";

fn extent(total_lines: u64, total_bytes: u64) -> Extent {
    Extent { total_lines, total_bytes }
}

fn tail_lines(data: &[u8], token: &str) -> Vec<u8> {
    let offset = TakeValue::from_str(token).unwrap();
    let measured = count_lines_bytes(data);
    print_lines(data, &offset, measured.total_lines).to_vec()
}

fn tail_bytes(data: &[u8], token: &str) -> String {
    let offset = TakeValue::from_str(token).unwrap();
    let measured = count_lines_bytes(data);
    print_bytes(data, &offset, measured.total_bytes)
}

fn config(files: &[&str], lines: &str, bytes: Option<&str>, quiet: bool) -> Config {
    Config {
        files: files.iter().map(|name| name.to_string()).collect(),
        lines: TakeValue::from_str(lines).unwrap(),
        bytes: bytes.map(|token| TakeValue::from_str(token).unwrap()),
        quiet,
    }
}

#[test]
fn test_parse_take_value() {
    assert_eq!("+0".parse::<TakeValue>(), Ok(PlusZero));
    assert_eq!("-0".parse::<TakeValue>(), Ok(TakeNum(0)));
    assert_eq!("-0".parse::<TakeValue>(), Ok(TakeNum(0)));
    assert_eq!("+1".parse::<TakeValue>(), Ok(TakeNum(1)));
    assert_eq!("-1".parse::<TakeValue>(), Ok(TakeNum(-1)));
    assert_eq!("1".parse::<TakeValue>(), Ok(TakeNum(-1)));
    assert_eq!(
        "a".parse::<TakeValue>(),
        Err("illegal offset -- a: Invalid argument".to_string())
    );
}

#[test]
fn test_take_value_from_str() {
    assert_eq!(TakeValue::from_str("+0"), Ok(PlusZero));
    assert_eq!(TakeValue::from_str("-0"), Ok(TakeNum(0)));
    assert_eq!(TakeValue::from_str("-0"), Ok(TakeNum(0)));
    assert_eq!(TakeValue::from_str("+1"), Ok(TakeNum(1)));
    assert_eq!(TakeValue::from_str("-1"), Ok(TakeNum(-1)));
    assert_eq!(TakeValue::from_str("1"), Ok(TakeNum(-1)));
    assert_eq!(
        TakeValue::from_str("a"),
        Err("illegal offset -- a: Invalid argument".to_string())
    );
}

#[test]
fn test_count_lines_bytes() {
    assert_eq!(count_lines_bytes(b""), extent(0, 0));
    assert_eq!(
        count_lines_bytes("\u{d6}ne line, four word\u{15b}.\n".as_bytes()),
        extent(1, 24)
    );
    assert_eq!(count_lines_bytes(b"Two lines.\nFour words.\n"), extent(2, 23));
    assert_eq!(
        count_lines_bytes(b"Three\r\nlines,\r\nfour words.\n"),
        extent(3, 27)
    );
    assert_eq!(count_lines_bytes(TWELVE.as_bytes()), extent(12, 63));
}

#[test]
fn test_get_start_index() {
    // +0 from an empty file (0 lines/bytes) returns None
    assert_eq!(get_start_index(&PlusZero, 0), None);

    // +0 from a nonempty file returns the index of the first line/byte
    assert_eq!(get_start_index(&PlusZero, 1), Some(0));

    // Taking 0 lines/bytes returns None
    assert_eq!(get_start_index(&TakeNum(0), 1), None);

    // Taking any lines/bytes from an empty file returns None
    assert_eq!(get_start_index(&TakeNum(1), 0), None);

    // Taking more lines/bytes than is available returns None
    assert_eq!(get_start_index(&TakeNum(2), 1), None);

    // When starting line/byte is less than total lines/bytes,
    // return one less than starting number
    assert_eq!(get_start_index(&TakeNum(1), 10), Some(0));
    assert_eq!(get_start_index(&TakeNum(2), 10), Some(1));
    assert_eq!(get_start_index(&TakeNum(3), 10), Some(2));

    // When starting line/byte is negative and less than total,
    // return total - start
    assert_eq!(get_start_index(&TakeNum(-1), 10), Some(9));
    assert_eq!(get_start_index(&TakeNum(-2), 10), Some(8));
    assert_eq!(get_start_index(&TakeNum(-3), 10), Some(7));

    // When the starting line/byte is negative and more than the total,
    // return 0 to print the whole file
    assert_eq!(get_start_index(&TakeNum(-20), 10), Some(0));
}

#[test]
fn parse_agrees_with_the_standard_integer_parser() {
    let tokens = [
        "", "+", "-", "0", "00", "+00", "-00", "007", "+007", "-007", "12", "+12", "-12", "1 ",
        " 1", "1_000", "--1", "+-1", "-+1", "++1", "1a", "a1", "0x10", "1.5", "\u{661}",
        "9223372036854775807", "+9223372036854775807", "-9223372036854775807",
        "9223372036854775808", "+9223372036854775808", "-9223372036854775808",
        "-9223372036854775809", "000000000000000000000000000000000000012",
        "99999999999999999999999999", "-99999999999999999999999999", "1\u{e9}", "\u{e9}",
    ];
    for token in tokens {
        let expected = match token.parse::<i64>() {
            Ok(num) if token.starts_with('+') || num < 0 => Ok(TakeNum(num)),
            Ok(num) => Ok(TakeNum(-num)),
            Err(_) => Err(format!("illegal offset -- {}: Invalid argument", token)),
        };
        assert_eq!(TakeValue::from_str(token), expected, "token {:?}", token);
    }
}

#[test]
fn plus_zero_and_zero_count_are_different_requests() {
    assert_eq!(TakeValue::from_str("+0"), Ok(PlusZero));
    assert_eq!(TakeValue::from_str("+00"), Ok(TakeNum(0)));
    assert_eq!(TakeValue::from_str("0"), Ok(TakeNum(0)));
    assert_eq!(get_start_index(&PlusZero, 5), Some(0));
    assert_eq!(get_start_index(&TakeNum(0), 5), None);
}

#[test]
fn start_index_at_the_limits_of_the_integer_types() {
    assert_eq!(get_start_index(&TakeNum(i64::MIN), 1), Some(0));
    assert_eq!(get_start_index(&TakeNum(i64::MIN), u64::MAX), Some(u64::MAX - (1u64 << 63)));
    assert_eq!(get_start_index(&TakeNum(-1), u64::MAX), Some(u64::MAX - 1));
    assert_eq!(get_start_index(&TakeNum(i64::MAX), u64::MAX), Some(i64::MAX as u64 - 1));
    assert_eq!(get_start_index(&TakeNum(i64::MAX), i64::MAX as u64 - 1), None);
    assert_eq!(get_start_index(&TakeNum(10), 10), Some(9));
    assert_eq!(get_start_index(&TakeNum(11), 10), None);
    assert_eq!(get_start_index(&TakeNum(-10), 10), Some(0));
    assert_eq!(get_start_index(&PlusZero, u64::MAX), Some(0));
}

#[test]
fn measuring_counts_one_line_for_each_terminator() {
    assert_eq!(count_lines_bytes(b"a"), extent(0, 1));
    assert_eq!(count_lines_bytes(b"\n"), extent(1, 1));
    assert_eq!(count_lines_bytes(b"\n\n"), extent(2, 2));
    assert_eq!(count_lines_bytes(b"a\nb"), extent(1, 3));
    assert_eq!(count_lines_bytes(b"a\r\nb\r\n"), extent(2, 6));
    assert_eq!(count_lines_bytes(&[0xff, 0x00, 0x0a, 0xfe]), extent(1, 4));
}

#[test]
fn last_three_lines_of_ten() {
    assert_eq!(tail_lines(TEN.as_bytes(), "-3"), b"eight\nnine\nten\n".to_vec());
    assert_eq!(tail_lines(TEN.as_bytes(), "3"), b"eight\nnine\nten\n".to_vec());
    assert_eq!(tail_lines(TEN.as_bytes(), "+9"), b"nine\nten\n".to_vec());
    assert_eq!(tail_lines(TEN.as_bytes(), "+10"), b"ten\n".to_vec());
    assert_eq!(tail_lines(TEN.as_bytes(), "+11"), b"".to_vec());
    assert_eq!(tail_lines(TEN.as_bytes(), "-0"), b"".to_vec());
    assert_eq!(tail_lines(TEN.as_bytes(), "+0"), TEN.as_bytes().to_vec());
    assert_eq!(tail_lines(TEN.as_bytes(), "+1"), TEN.as_bytes().to_vec());
    assert_eq!(tail_lines(TEN.as_bytes(), "-10"), TEN.as_bytes().to_vec());
    assert_eq!(tail_lines(TEN.as_bytes(), "-200"), TEN.as_bytes().to_vec());
}

#[test]
fn lines_keep_their_terminators_and_their_bytes() {
    let data = b"Three\r\nlines,\r\nfour words.\n";
    assert_eq!(tail_lines(data, "-2"), b"lines,\r\nfour words.\n".to_vec());
    assert_eq!(tail_lines(b"a\nb\n", "-1"), b"b\n".to_vec());
    assert_eq!(tail_lines(b"a\n\n\nb\n", "-2"), b"\nb\n".to_vec());
    assert_eq!(tail_lines(&[0xff, 0x0a, 0xfe, 0x0a], "-1"), vec![0xfe, 0x0a]);
    assert_eq!(tail_lines(b"", "-5"), b"".to_vec());
    assert_eq!(tail_lines(b"", "+0"), b"".to_vec());
}

#[test]
fn bytes_after_the_last_terminator_are_no_line() {
    // One terminator is one line; what follows it comes along with it.
    assert_eq!(tail_lines(b"a\nb", "-1"), b"a\nb".to_vec());
    assert_eq!(tail_lines(b"a\n\n\nb", "-2"), b"\n\nb".to_vec());
    assert_eq!(tail_lines(b"a\nb", "+2"), b"".to_vec());
    // No terminator is no line, so there is nothing to select.
    assert_eq!(tail_lines(b"no terminator", "-1"), b"".to_vec());
    assert_eq!(tail_lines(b"no terminator", "+0"), b"".to_vec());
    assert_eq!(tail_lines(b"no terminator", "+1"), b"".to_vec());
    // Byte mode is not touched by this.
    assert_eq!(tail_bytes(b"no terminator", "-4"), "ator");
}

#[test]
fn line_mode_with_a_total_that_was_not_measured() {
    assert_eq!(print_lines(b"a\nb\nc\n", &TakeNum(-1), 2), b"b\nc\n");
    assert_eq!(print_lines(b"a\nb\nc\n", &TakeNum(-1), 10), b"");
    assert_eq!(print_lines(b"a\nb\nc\n", &TakeNum(4), 10), b"");
    assert_eq!(print_lines(b"a\nb\nc\n", &TakeNum(-1), 0), b"");
}

#[test]
fn byte_mode_end_to_end() {
    assert_eq!(tail_bytes(TEN.as_bytes(), "+0"), TEN);
    assert_eq!(tail_bytes(b"", "-5"), "");
    assert_eq!(tail_bytes(b"", "+0"), "");
    assert_eq!(tail_bytes(TEN.as_bytes(), "-4"), "ten\n");
    assert_eq!(tail_bytes(TEN.as_bytes(), "4"), "ten\n");
    assert_eq!(tail_bytes(TEN.as_bytes(), "+5"), &TEN[4..]);
    assert_eq!(tail_bytes(TEN.as_bytes(), "-0"), "");
    assert_eq!(tail_bytes(TEN.as_bytes(), "-1000"), TEN);
    assert_eq!(tail_bytes(TEN.as_bytes(), "+1000"), "");
}

#[test]
fn byte_mode_is_lenient_about_encoding() {
    let data = "\u{d6}ne line, four word\u{15b}.\n".as_bytes();
    assert_eq!(tail_bytes(data, "+0"), "\u{d6}ne line, four word\u{15b}.\n");
    // The start position cuts the first character in two.
    assert_eq!(tail_bytes(data, "+2"), "\u{fffd}ne line, four word\u{15b}.\n");
    assert_eq!(tail_bytes(data, "-3"), "\u{fffd}.\n");
    assert_eq!(tail_bytes(&[0x61, 0xff, 0x62], "+0"), "a\u{fffd}b");
}

#[test]
fn byte_mode_gives_the_same_output_twice() {
    let data = "\u{d6}ne line, four word\u{15b}.\n".as_bytes();
    let start = TakeNum(-7);
    let first = print_bytes(data, &start, 24);
    let second = print_bytes(data, &start, 24);
    assert_eq!(first, second);
    assert_eq!(first, "ord\u{15b}.\n");
}

#[test]
fn byte_mode_with_a_total_that_was_not_measured() {
    assert_eq!(print_bytes(b"abc", &TakeNum(-1), 10), "");
    assert_eq!(print_bytes(b"abc", &TakeNum(-1), 2), "bc");
    assert_eq!(print_bytes(b"abc", &PlusZero, 0), "");
}

#[test]
fn run_one_file_has_no_header() {
    let settings = config(&["ten.txt"], "-2", None, false);
    let out = run(&settings, &vec![Input::Content(TEN.as_bytes().to_vec())]);
    assert_eq!(out.stdout, b"nine\nten\n".to_vec());
    assert!(out.stderr.is_empty());
}

#[test]
fn run_several_files_with_headers() {
    let settings = config(&["ten.txt", "missing.txt", "two.txt"], "-1", None, false);
    let inputs = vec![
        Input::Content(TEN.as_bytes().to_vec()),
        Input::Unreadable("No such file or directory (os error 2)".to_string()),
        Input::Content(b"Two lines.\nFour words.\n".to_vec()),
    ];
    let out = run(&settings, &inputs);
    assert_eq!(
        String::from_utf8(out.stdout).unwrap(),
        "==> ten.txt <==\nten\n\n==> two.txt <==\nFour words.\n"
    );
    assert_eq!(
        out.stderr,
        vec!["missing.txt: No such file or directory (os error 2)".to_string()]
    );
}

#[test]
fn run_first_header_written_has_no_blank_line_before_it() {
    let settings = config(&["a", "b", "c"], "-1", None, false);
    let missing = || Input::Unreadable("No such file or directory (os error 2)".to_string());
    let out = run(
        &settings,
        &vec![missing(), Input::Content(b"x\ny\n".to_vec()), Input::Content(b"z\n".to_vec())],
    );
    assert_eq!(
        String::from_utf8(out.stdout).unwrap(),
        "==> b <==\ny\n\n==> c <==\nz\n"
    );
    assert_eq!(out.stderr, vec!["a: No such file or directory (os error 2)".to_string()]);
    let out = run(&settings, &vec![missing(), missing(), Input::Content(b"z\n".to_vec())]);
    assert_eq!(String::from_utf8(out.stdout).unwrap(), "==> c <==\nz\n");
    assert_eq!(out.stderr.len(), 2);
    let out = run(&settings, &vec![missing(), missing(), missing()]);
    assert!(out.stdout.is_empty());
}

#[test]
fn run_quiet_and_byte_mode() {
    let settings = config(&["a", "b"], "-10", Some("-3"), true);
    let inputs = vec![
        Input::Content(b"hello\n".to_vec()),
        Input::Content(b"".to_vec()),
    ];
    let out = run(&settings, &inputs);
    assert_eq!(out.stdout, b"lo\n".to_vec());
    let loud = config(&["a", "b"], "-10", Some("+0"), false);
    let out = run(&loud, &inputs);
    assert_eq!(
        String::from_utf8(out.stdout).unwrap(),
        "==> a <==\nhello\n\n==> b <==\n"
    );
}

#[test]
fn run_stops_at_the_inputs_that_were_supplied() {
    let settings = config(&["a", "b", "c"], "+0", None, false);
    let out = run(&settings, &vec![Input::Content(b"x\n".to_vec())]);
    assert_eq!(String::from_utf8(out.stdout).unwrap(), "==> a <==\nx\n");
    let one = config(&["a"], "+0", None, false);
    let extra = vec![Input::Content(b"x\n".to_vec()), Input::Content(b"y\n".to_vec())];
    assert_eq!(run(&one, &extra).stdout, b"x\n".to_vec());
}
