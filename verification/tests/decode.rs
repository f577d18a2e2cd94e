use mpd::song::Range;
use mpd::value::{parse_duration, parse_i64, parse_u32, parse_u8, Duration};

#[test]
fn u32_decode_plain() {
    assert_eq!(parse_u32("0"), Some(0));
    assert_eq!(parse_u32("7"), Some(7));
    assert_eq!(parse_u32("4294967295"), Some(u32::MAX));
}

#[test]
fn u32_decode_plus_sign() {
    assert_eq!(parse_u32("+42"), Some(42));
}

#[test]
fn u32_decode_rejects_bad_text() {
    assert_eq!(parse_u32(""), None);
    assert_eq!(parse_u32("+"), None);
    assert_eq!(parse_u32("12a"), None);
    assert_eq!(parse_u32("-1"), None);
    assert_eq!(parse_u32(" 1"), None);
}

#[test]
fn u32_decode_rejects_out_of_range() {
    assert_eq!(parse_u32("4294967296"), None);
    assert_eq!(parse_u32("99999999999999999999999999"), None);
}

#[test]
fn u8_decode_width() {
    assert_eq!(parse_u8("255"), Some(255));
    assert_eq!(parse_u8("256"), None);
}

#[test]
fn i64_decode_signs() {
    assert_eq!(parse_i64("125"), Some(125));
    assert_eq!(parse_i64("-5"), Some(-5));
    assert_eq!(parse_i64("+5"), Some(5));
    assert_eq!(parse_i64("-"), None);
    assert_eq!(parse_i64("abc"), None);
}

#[test]
fn i64_decode_extremes() {
    assert_eq!(parse_i64("9223372036854775807"), Some(i64::MAX));
    assert_eq!(parse_i64("9223372036854775808"), None);
    assert_eq!(parse_i64("-9223372036854775808"), Some(i64::MIN));
    assert_eq!(parse_i64("-9223372036854775809"), None);
}

#[test]
fn duration_decode_seconds() {
    assert_eq!(parse_duration("125"), Some(Duration::seconds(125)));
    assert_eq!(parse_duration("abc"), None);
}

#[test]
fn range_decode_both_halves() {
    let r = Range::from_str("10-20").unwrap();
    assert_eq!(r, Range(Duration::seconds(10), Some(Duration::seconds(20))));
}

#[test]
fn range_decode_open_end() {
    let r = Range::from_str("10-").unwrap();
    assert_eq!(r, Range(Duration::seconds(10), None));
}

#[test]
fn range_decode_missing_start_is_zero() {
    let r = Range::from_str("-20").unwrap();
    assert_eq!(r, Range(Duration::seconds(0), Some(Duration::seconds(20))));
}

#[test]
fn range_decode_lone_dash_and_empty() {
    assert_eq!(
        Range::from_str("-").unwrap(),
        Range(Duration::seconds(0), None)
    );
    assert_eq!(
        Range::from_str("").unwrap(),
        Range(Duration::seconds(0), None)
    );
}

#[test]
fn range_decode_bad_half_fails() {
    assert!(Range::from_str("abc-5").is_err());
    assert!(Range::from_str("5-abc").is_err());
    let e = Range::from_str("x-").unwrap_err();
    match e {
        mpd::error::ParseError::BadInteger { field, text } => {
            assert_eq!(field, "Range");
            assert_eq!(text, "x-");
        }
        other => panic!("unexpected error: {:?}", other),
    }
}

#[test]
fn range_default_is_zero_unbounded() {
    let r: Range = Default::default();
    assert_eq!(r, Range(Duration::seconds(0), None));
}
