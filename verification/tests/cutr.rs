use cliutils::cutr::{parse_index, parse_pos, parse_range, run, ArgsExtract, Config, CutError, Extract};

fn config(delim: &str, fields: Option<&str>, bytes: Option<&str>, chars: Option<&str>) -> Config {
    Config {
        files: vec!["-".to_string()],
        delim: delim.to_string(),
        extract: ArgsExtract {
            fields: fields.map(|list| list.to_string()),
            bytes: bytes.map(|list| list.to_string()),
            chars: chars.map(|list| list.to_string()),
        },
    }
}

#[test]
fn test_parse_pos() {
    // The empty string is an error
    assert!(parse_pos("".to_string()).is_err());

    // Zero is an error
    let res = parse_pos("0".to_string());
    assert!(res.is_err());
    assert_eq!(res.unwrap_err().to_string(), r#"illegal list value: "0""#);

    let res = parse_pos("0-1".to_string());
    assert!(res.is_err());
    assert_eq!(res.unwrap_err().to_string(), r#"illegal list value: "0""#);

    // A leading "+" is an error
    let res = parse_pos("+1".to_string());
    assert!(res.is_err());
    assert_eq!(res.unwrap_err().to_string(), r#"illegal list value: "+1""#,);

    let res = parse_pos("+1-2".to_string());
    assert!(res.is_err());
    assert_eq!(
        res.unwrap_err().to_string(),
        r#"illegal list value: "+1-2""#,
    );

    let res = parse_pos("1-+2".to_string());
    assert!(res.is_err());
    assert_eq!(
        res.unwrap_err().to_string(),
        r#"illegal list value: "1-+2""#,
    );

    // Any non-number is an error
    let res = parse_pos("a".to_string());
    assert!(res.is_err());
    assert_eq!(res.unwrap_err().to_string(), r#"illegal list value: "a""#);

    let res = parse_pos("1,a".to_string());
    assert!(res.is_err());
    assert_eq!(res.unwrap_err().to_string(), r#"illegal list value: "a""#);

    let res = parse_pos("1-a".to_string());
    assert!(res.is_err());
    assert_eq!(res.unwrap_err().to_string(), r#"illegal list value: "1-a""#,);

    let res = parse_pos("a-1".to_string());
    assert!(res.is_err());
    assert_eq!(res.unwrap_err().to_string(), r#"illegal list value: "a-1""#,);

    // Wonky ranges
    let res = parse_pos("-".to_string());
    assert!(res.is_err());

    let res = parse_pos(",".to_string());
    assert!(res.is_err());

    let res = parse_pos("1,".to_string());
    assert!(res.is_err());

    let res = parse_pos("1-".to_string());
    assert!(res.is_err());

    let res = parse_pos("1-1-1".to_string());
    assert!(res.is_err());

    let res = parse_pos("1-1-a".to_string());
    assert!(res.is_err());

    // First number must be less than second
    let res = parse_pos("1-1".to_string());
    assert!(res.is_err());
    assert_eq!(
        res.unwrap_err().to_string(),
        "First number in range (1) must be lower than second number (1)"
    );

    let res = parse_pos("2-1".to_string());
    assert!(res.is_err());
    assert_eq!(
        res.unwrap_err().to_string(),
        "First number in range (2) must be lower than second number (1)"
    );

    // All the following are acceptable
    let res = parse_pos("1".to_string());
    assert!(res.is_ok());
    assert_eq!(res.unwrap(), vec![0..1]);

    let res = parse_pos("01".to_string());
    assert!(res.is_ok());
    assert_eq!(res.unwrap(), vec![0..1]);

    let res = parse_pos("1,3".to_string());
    assert!(res.is_ok());
    assert_eq!(res.unwrap(), vec![0..1, 2..3]);

    let res = parse_pos("001,0003".to_string());
    assert!(res.is_ok());
    assert_eq!(res.unwrap(), vec![0..1, 2..3]);

    let res = parse_pos("1-3".to_string());
    assert!(res.is_ok());
    assert_eq!(res.unwrap(), vec![0..3]);

    let res = parse_pos("0001-03".to_string());
    assert!(res.is_ok());
    assert_eq!(res.unwrap(), vec![0..3]);

    let res = parse_pos("1,7,3-5".to_string());
    assert!(res.is_ok());
    assert_eq!(res.unwrap(), vec![0..1, 6..7, 2..5]);

    let res = parse_pos("15,19-20".to_string());
    assert!(res.is_ok());
    assert_eq!(res.unwrap(), vec![14..15, 18..20]);
}

#[test]
fn parse_index_counts_from_one() {
    assert_eq!(parse_index("1"), Ok(0));
    assert_eq!(parse_index("0012"), Ok(11));
    assert_eq!(parse_index(&usize::MAX.to_string()), Ok(usize::MAX - 1));
    for bad in ["", "0", "00", "+1", "-1", "1 ", " 1", "a", "1a", "18446744073709551616", "\u{662}"] {
        assert_eq!(
            parse_index(bad),
            Err(CutError::IllegalListValue(bad.to_string())),
            "{:?}",
            bad
        );
    }
}

#[test]
fn parse_range_names_the_end_that_is_wrong() {
    assert_eq!(parse_range("3", "5"), Ok(2..5));
    assert_eq!(parse_range("5", "3"), Err(CutError::RangeOrder(5, 3)));
    assert_eq!(parse_range("0", "x"), Err(CutError::IllegalListValue("0".to_string())));
    assert_eq!(parse_range("1", "x"), Err(CutError::IllegalListValue("x".to_string())));
}

#[test]
fn a_range_is_found_by_the_pattern() {
    // Digits that are no ASCII digits are found by the pattern, and then
    // rejected one end at a time.
    assert_eq!(
        parse_pos("\u{661}-2".to_string()),
        Err(CutError::IllegalListValue("\u{661}".to_string()))
    );
    assert_eq!(
        parse_pos("1-2\n".to_string()),
        Err(CutError::IllegalListValue("1-2\n".to_string()))
    );
    assert_eq!(
        parse_pos("2,1-x,0".to_string()),
        Err(CutError::IllegalListValue("1-x".to_string()))
    );
    assert_eq!(parse_pos("4-5,1-2".to_string()), Ok(vec![3..5, 0..2]));
}

#[test]
fn run_checks_the_delimiter_and_picks_the_selection() {
    assert_eq!(
        run(&config(",", Some("1,3"), None, None)),
        Ok((b',', Extract::Fields(vec![0..1, 2..3])))
    );
    assert_eq!(
        run(&config("\t", None, Some("2-4"), None)),
        Ok((b'\t', Extract::Bytes(vec![1..4])))
    );
    assert_eq!(
        run(&config(";", None, None, Some("9"))),
        Ok((b';', Extract::Chars(vec![8..9])))
    );
    assert_eq!(
        run(&config(";", Some("1"), Some("x"), Some("y"))),
        Ok((b';', Extract::Fields(vec![0..1])))
    );
    let res = run(&config(",,", Some("1"), None, None));
    assert_eq!(res, Err(CutError::BadDelimiter(",,".to_string())));
    assert_eq!(res.unwrap_err().to_string(), r#"--delim ",," must be a single byte"#);
    assert_eq!(
        run(&config("", Some("1"), None, None)),
        Err(CutError::BadDelimiter("".to_string()))
    );
    assert_eq!(
        run(&config("\u{e9}", Some("1"), None, None)),
        Err(CutError::BadDelimiter("\u{e9}".to_string()))
    );
    assert_eq!(
        run(&config(",", None, Some("3-1"), None)),
        Err(CutError::RangeOrder(3, 1))
    );
}
