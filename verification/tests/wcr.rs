use cliutils::input::ReadError;
use cliutils::text::is_whitespace;
use cliutils::wcr::{count, FileInfo};

#[test]
fn test_count() {
    let text = "I don't want the world, I just want your half\r\n";
    let info = count(text.as_bytes());
    assert!(info.is_ok());
    let expected = FileInfo {
        num_lines: 1,
        num_words: 10,
        num_bytes: 47,
        num_chars: 47,
    };
    assert_eq!(info.unwrap(), expected);
}

#[test]
fn whitespace_agrees_with_the_standard_library_on_every_character() {
    for code in 0..=0x10ffffu32 {
        if let Some(c) = char::from_u32(code) {
            assert_eq!(is_whitespace(c), c.is_whitespace(), "U+{:04X}", code);
        }
    }
}

#[test]
fn count_agrees_with_the_standard_library() {
    let texts = [
        "",
        "\n",
        "a",
        " a  b\t\tc \n",
        "\u{d6}ne line, four word\u{15b}.\n",
        "Two lines.\nFour words.\n",
        "no terminator at the end",
        "tab\tseparated\u{a0}nbsp\u{3000}ideographic\u{2028}line separator",
        "\r\n\r\n",
        "   ",
    ];
    for text in texts {
        let expected = FileInfo {
            num_lines: text.split_inclusive('\n').count(),
            num_words: text.split_whitespace().count(),
            num_bytes: text.len(),
            num_chars: text.chars().count(),
        };
        assert_eq!(count(text.as_bytes()), Ok(expected), "text {:?}", text);
    }
}

#[test]
fn count_rejects_bytes_that_are_not_text() {
    assert_eq!(count(&[0x61, 0xff, 0x0a]), Err(ReadError::InvalidUtf8));
    assert_eq!(count(&[0xc3]), Err(ReadError::InvalidUtf8));
    assert_eq!(count(&[0xed, 0xa0, 0x80]), Err(ReadError::InvalidUtf8));
    assert_eq!(count(&[0xc3, 0x96]).map(|info| info.num_chars), Ok(1));
}
