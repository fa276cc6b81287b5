use std::time::Duration;

use hyperion_vault::clock::{now_unix, or_blank, rfc3339, rfc3339_opt, unix_secs};
use hyperion_vault::text::{
    format_i64, format_padded, format_u64, parse_i64, parse_unsigned, rsplit_once, split,
    split_once, trim, white_space,
};

#[test]
fn times_are_written_as_rfc3339() {
    assert_eq!(rfc3339(0), "1970-01-01T00:00:00Z");
    assert_eq!(rfc3339(951_782_400), "2000-02-29T00:00:00Z");
    assert_eq!(rfc3339(-1), "1969-12-31T23:59:59Z");
    assert_eq!(rfc3339(253_402_300_799), "9999-12-31T23:59:59Z");
    assert_eq!(rfc3339(253_402_300_800), "");
    assert_eq!(rfc3339(i64::MIN), "");
    assert_eq!(rfc3339_opt(None), None);
    assert_eq!(rfc3339_opt(Some(60)).as_deref(), Some("1970-01-01T00:01:00Z"));
    assert_eq!(or_blank(None), "");
    assert_eq!(or_blank(Some("x".to_string())), "x");
}

#[test]
fn the_clock_counts_whole_seconds() {
    assert_eq!(unix_secs(Some(Duration::from_millis(1999))), 1);
    assert_eq!(unix_secs(None), 0);
    assert_eq!(unix_secs(Some(Duration::from_secs(u64::MAX))), -1);
    assert!(now_unix() > 1_700_000_000);
}

#[test]
fn white_space_is_that_of_the_standard_library() {
    for code in 0..=0x10ffffu32 {
        if let Some(c) = char::from_u32(code) {
            assert_eq!(white_space(c), c.is_whitespace(), "{code:x}");
        }
    }
    assert_eq!(trim("\u{3000} a b\t\n"), "a b");
    assert_eq!(trim(" \u{85} "), "");
}

#[test]
fn texts_are_split_as_the_standard_library_does() {
    for text in ["", "a", ",", "a,b", ",a,,b,", "ü,ö"] {
        let expected: Vec<String> = text.split(',').map(|s| s.to_string()).collect();
        assert_eq!(split(text, ','), expected, "{text}");
        let once = text.split_once(',').map(|(a, b)| (a.to_string(), b.to_string()));
        assert_eq!(split_once(text, ','), once, "{text}");
        let last = text.rsplit_once(',').map(|(a, b)| (a.to_string(), b.to_string()));
        assert_eq!(rsplit_once(text, ','), last, "{text}");
    }
}

#[test]
fn numbers_are_written_and_read_as_the_standard_library_does() {
    for n in [0, 7, -7, 10, 1_000_000, i64::MIN, i64::MAX] {
        assert_eq!(format_i64(n), n.to_string());
        assert_eq!(format_padded(n, 10), format!("{n:010}"));
    }
    assert_eq!(format_u64(u64::MAX), u64::MAX.to_string());
    for text in [
        "", "0", "+5", "-5", "-0", "007", "+", "-", "18446744073709551615",
        "18446744073709551616", "9223372036854775807", "9223372036854775808",
        "-9223372036854775808", "-9223372036854775809", " 1", "1 ", "0x1", "٣", "++1",
        "00000000000000000000000000000001",
    ] {
        assert_eq!(parse_unsigned(text, u64::MAX), text.parse::<u64>().ok(), "{text}");
        assert_eq!(
            parse_unsigned(text, u16::MAX as u64),
            text.parse::<u16>().ok().map(|n| n as u64),
            "{text}"
        );
        assert_eq!(parse_i64(text), text.parse::<i64>().ok(), "{text}");
    }
}
