//! Dates, stamps and reason codes on known values.

use std::time::Duration;

use tatami_fuzz::state_support::record_ref::{civil_from_days, looks_like_rfc3339, reason_is_known};
use tatami_fuzz::state_support::calendar;

fn rfc3339(d: Duration) -> String {
    calendar::rfc3339(d.as_secs(), d.subsec_millis())
}

#[test]
fn rfc3339_known_values() {
    assert_eq!(rfc3339(Duration::ZERO), "1970-01-01T00:00:00.000Z");
    assert_eq!(rfc3339(Duration::from_secs(951_868_800)), "2000-03-01T00:00:00.000Z");
    assert_eq!(rfc3339(Duration::from_millis(1_789_907_696_789)), "2026-09-20T12:34:56.789Z");
    assert_eq!(rfc3339(Duration::from_secs(1_709_251_199)), "2024-02-29T23:59:59.000Z");
    assert_eq!(rfc3339(Duration::from_secs(u64::from(u32::MAX))), "2106-02-07T06:28:15.000Z");
    assert_eq!(rfc3339(Duration::from_secs(253_402_300_799)), "9999-12-31T23:59:59.000Z");
}

#[test]
fn civil_from_days_matches_day_counting() {
    // Independent third opinion: count days month by month.
    let is_leap = |y: i64| (y % 4 == 0 && y % 100 != 0) || y % 400 == 0;
    let mdays = |y: i64, m: i64| match m {
        1 | 3 | 5 | 7 | 8 | 10 | 12 => 31,
        4 | 6 | 9 | 11 => 30,
        _ => {
            if is_leap(y) {
                29
            } else {
                28
            }
        }
    };
    let (mut y, mut m, mut d) = (1970, 1, 1);
    for day in 0..200_000i64 {
        assert_eq!(civil_from_days(day), (y, m, d), "day {day}");
        d += 1;
        if d > mdays(y, m) {
            d = 1;
            m += 1;
            if m > 12 {
                m = 1;
                y += 1;
            }
        }
    }
}

#[test]
fn reason_pattern() {
    assert!(reason_is_known("disconnect_0"));
    assert!(reason_is_known("disconnect_4294967295"));
    assert!(!reason_is_known("disconnect_04"));
    assert!(!reason_is_known("disconnect_4294967296"));
    assert!(!reason_is_known("disconnect_"));
    assert!(reason_is_known("ident_invalid"));
    assert!(!reason_is_known("timeout"));
}

#[test]
fn every_stamp_looks_like_one() {
    for secs in [0u64, 1, 59, 86_399, 86_400, 951_868_800, 253_402_300_799] {
        for millis in [0u32, 7, 999] {
            let text = calendar::rfc3339(secs, millis);
            assert!(looks_like_rfc3339(&text), "{text}");
        }
    }
    for secs in [253_402_300_800u64, 253_402_300_801, u64::MAX] {
        let text = calendar::rfc3339(secs, 0);
        assert!(!looks_like_rfc3339(&text), "{text}");
    }
    assert_eq!(calendar::rfc3339(253_402_300_800, 0), "10000-01-01T00:00:00.000Z");
    assert!(!looks_like_rfc3339("1970-01-01 00:00:00.000Z"));
    assert!(!looks_like_rfc3339(""));
}
