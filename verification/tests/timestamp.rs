//! Seconds as dates.

use smartzip::timestamp::{clock_text, civil_from_days, format_utc_seconds, now_utc_iso8601};

#[test]
fn epoch_formats_to_1970_01_01() {
    assert_eq!(format_utc_seconds(0), "1970-01-01T00:00:00Z");
}

#[test]
fn known_date_2000_01_01() {
    // 946684800 == 2000-01-01T00:00:00Z
    assert_eq!(format_utc_seconds(946_684_800), "2000-01-01T00:00:00Z");
}

#[test]
fn known_date_2026_07_02() {
    // 1782000000 == 2026-06-20T17:20:00Z; use a value we can compute
    // by hand: 2026-07-02T00:00:00Z corresponds to
    // 56 years and 6 months + 2 days after 1970 => 1782950400.
    assert_eq!(format_utc_seconds(1_782_950_400), "2026-07-02T00:00:00Z");
}

#[test]
fn now_returns_sortable_string() {
    let value = now_utc_iso8601();
    assert_eq!(value.len(), 20);
    assert!(value.ends_with('Z'));
    assert!(value.chars().nth(4) == Some('-'));
}

#[test]
fn seconds_before_the_epoch() {
    assert_eq!(format_utc_seconds(-1), "1969-12-31T23:59:59Z");
    assert_eq!(format_utc_seconds(-86_400), "1969-12-31T00:00:00Z");
}

#[test]
fn clock_is_read_as_signed_seconds() {
    assert_eq!(clock_text(Some(946_684_800)), "2000-01-01T00:00:00Z");
    assert_eq!(clock_text(None), "1970-01-01T00:00:00Z");
    assert_eq!(clock_text(Some(u64::MAX)), "1969-12-31T23:59:59Z");
}

#[test]
fn texts_have_twenty_characters() {
    for seconds in [-62_167_219_200, -1, 0, 1_782_950_400, 253_402_300_799] {
        let text = format_utc_seconds(seconds);
        assert_eq!(text.len(), 20);
        for (place, c) in text.chars().enumerate() {
            match place {
                4 | 7 => assert_eq!(c, '-'),
                10 => assert_eq!(c, 'T'),
                13 | 16 => assert_eq!(c, ':'),
                19 => assert_eq!(c, 'Z'),
                _ => assert!(c.is_ascii_digit()),
            }
        }
    }
}

#[test]
fn leap_days() {
    assert_eq!(format_utc_seconds(951_782_400), "2000-02-29T00:00:00Z");
    assert_eq!(format_utc_seconds(4_107_542_399), "2100-02-28T23:59:59Z");
    assert_eq!(format_utc_seconds(4_107_542_400), "2100-03-01T00:00:00Z");
}

#[test]
fn days_have_dates() {
    assert_eq!(civil_from_days(0), (1970, 1, 1));
    assert_eq!(civil_from_days(-1), (1969, 12, 31));
    assert_eq!(civil_from_days(11_017), (2000, 3, 1));
}

#[test]
fn later_seconds_sort_later() {
    assert!(format_utc_seconds(946_684_799) < format_utc_seconds(946_684_800));
}
