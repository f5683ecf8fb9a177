use scenedetect::model::{SceneDetectError, Timecode};
use scenedetect::numeral::{first_word_of, parse_i64, parse_u64};
use scenedetect::text::{decimal_string, hex16, same_text};
use scenedetect::timecode::TimecodeText;

fn chars(s: &str) -> Vec<char> {
    s.chars().collect()
}

#[test]
fn unsigned_numbers_follow_str_parse() {
    for text in ["0", "+7", "18446744073709551615", "18446744073709551616", "", "+", "-1", "1 ", "0x1"] {
        assert_eq!(parse_u64(&chars(text)), text.parse::<u64>().ok(), "{text:?}");
    }
}

#[test]
fn signed_numbers_follow_str_parse() {
    for text in ["0", "-0", "+12", "-9223372036854775808", "9223372036854775807", "9223372036854775808", "-9223372036854775809", "-", "--1"] {
        assert_eq!(parse_i64(&chars(text)), text.parse::<i64>().ok(), "{text:?}");
    }
}

#[test]
fn first_word_skips_unicode_whitespace() {
    for text in ["  a b", "\u{3000}x\u{2003}y", "   ", "", "word"] {
        let expected: Option<Vec<char>> = text.split_whitespace().next().map(|w| w.chars().collect());
        assert_eq!(first_word_of(&chars(text)), expected, "{text:?}");
    }
}

#[test]
fn numbers_are_spelled_in_decimal_and_hexadecimal() {
    assert_eq!(decimal_string(0), "0");
    assert_eq!(decimal_string(1234567890), "1234567890");
    assert_eq!(decimal_string(u64::MAX), u64::MAX.to_string());
    assert_eq!(hex16(255), "00000000000000ff");
    assert_eq!(hex16(u64::MAX), "ffffffffffffffff");
    assert!(same_text("abc", "abc"));
    assert!(!same_text("abc", "abd"));
}

#[test]
fn timecodes_parse_as_frame_counts() {
    assert_eq!("42".parse::<Timecode>().unwrap().frames(), 42);
    assert_eq!(Timecode::parse("7").unwrap().frames(), 7);
    match Timecode::parse("1.5s") {
        Err(SceneDetectError::InvalidTimecode(text)) => assert_eq!(text, "1.5s"),
        other => panic!("unexpected result: {other:?}"),
    }
}

#[test]
fn timecode_spellings_are_told_apart() {
    assert_eq!(
        Timecode::classify("00:01:02.5").unwrap(),
        TimecodeText::Clock {
            hours: "00".to_owned(),
            minutes: "01".to_owned(),
            seconds: "02.5".to_owned()
        }
    );
    assert_eq!(Timecode::classify("1.5s").unwrap(), TimecodeText::Seconds("1.5".to_owned()));
    assert_eq!(Timecode::classify("15").unwrap(), TimecodeText::Frames(15));
    for bad in ["1:2", "1:2:3:4", "x", ""] {
        match Timecode::classify(bad) {
            Err(SceneDetectError::InvalidTimecode(text)) => assert_eq!(text, bad),
            other => panic!("unexpected result for {bad:?}: {other:?}"),
        }
    }
}
