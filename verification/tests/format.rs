use rst::time::{duration_to_humatime, normalize_duration, timestamp_to_iso, MAX_TIMESTAMP};
use rst::{from_duration, sum, to_iso};
use std::time::{Duration, UNIX_EPOCH};

#[test]
fn zero_duration() {
    assert_eq!(from_duration(0, 0), "0s");
}

#[test]
fn one_hour_one_minute_one_second() {
    assert_eq!(from_duration(3661, 0), "1h 1m 1s");
}

#[test]
fn duration_unit_spellings() {
    assert_eq!(from_duration(1, 0), "1s");
    assert_eq!(from_duration(60, 0), "1m");
    assert_eq!(from_duration(3600, 0), "1h");
    assert_eq!(from_duration(86400, 0), "1day");
    assert_eq!(from_duration(2 * 86400, 0), "2days");
    assert_eq!(from_duration(2_630_016, 0), "1month");
    assert_eq!(from_duration(2 * 2_630_016, 0), "2months");
    assert_eq!(from_duration(31_557_600, 0), "1year");
    assert_eq!(from_duration(2 * 31_557_600, 0), "2years");
    assert_eq!(from_duration(0, 1), "1ns");
    assert_eq!(from_duration(0, 1_000), "1us");
    assert_eq!(from_duration(0, 1_000_000), "1ms");
    assert_eq!(from_duration(0, 999_999_999), "999ms 999us 999ns");
}

#[test]
fn duration_matches_oracle() {
    let secs_cases: Vec<u64> = vec![
        0,
        1,
        59,
        60,
        61,
        3599,
        3600,
        3661,
        86399,
        86400,
        86401,
        604800,
        2_630_015,
        2_630_016,
        31_557_599,
        31_557_600,
        31_557_601,
        123_456_789,
        9_876_543_210,
        u64::MAX / 2,
        u64::MAX,
    ];
    let nanos_cases: Vec<u32> = vec![0, 1, 999, 1_000, 1_001, 999_999, 1_000_000, 123_456_789,
        999_999_999];
    for &s in &secs_cases {
        for &n in &nanos_cases {
            let expected = humantime::format_duration(Duration::new(s, n)).to_string();
            assert_eq!(duration_to_humatime(s, n), expected, "secs={} nanos={}", s, n);
        }
    }
}

#[test]
fn duration_output_has_no_zero_units() {
    let cases: Vec<(usize, u32)> = vec![
        (0, 0),
        (1, 0),
        (60, 0),
        (3600, 0),
        (3601, 0),
        (86400, 5),
        (31_557_600, 0),
        (123_456_789, 123_456_789),
    ];
    for &(s, n) in &cases {
        let out = from_duration(s, n);
        assert!(!out.is_empty());
        if (s, n) != (0, 0) {
            for part in out.split(' ') {
                assert!(!part.starts_with('0'), "zero-valued unit in {:?}", out);
            }
        }
    }
}

#[test]
fn epoch_iso() {
    assert_eq!(to_iso(0), "1970-01-01T00:00:00Z");
}

#[test]
fn one_nonleap_year_after_epoch() {
    assert_eq!(to_iso(31536000), "1971-01-01T00:00:00Z");
}

#[test]
fn last_representable_second() {
    assert_eq!(to_iso(MAX_TIMESTAMP), "9999-12-31T23:59:59Z");
}

#[test]
fn leap_day_2000() {
    assert_eq!(to_iso(951_782_400), "2000-02-29T00:00:00Z");
}

#[test]
fn iso_matches_oracle() {
    let cases: Vec<u64> = vec![
        0,
        1,
        59,
        3599,
        86399,
        86400,
        31_535_999,
        31_536_000,
        68_169_599,
        68_169_600,
        951_782_399,
        951_782_400,
        951_868_799,
        951_868_800,
        1_518_563_312,
        2_147_483_647,
        4_107_542_399,
        4_107_542_400,
        13_569_465_599,
        13_569_465_600,
        253_402_300_799,
    ];
    for &t in &cases {
        let expected = humantime::format_rfc3339(UNIX_EPOCH + Duration::new(t, 0)).to_string();
        assert_eq!(timestamp_to_iso(t), expected, "t={}", t);
    }
}

#[test]
fn iso_matches_pattern() {
    let cases: Vec<u64> = vec![0, 1, 86399, 951_782_400, 1_518_563_312, MAX_TIMESTAMP];
    for &t in &cases {
        let out = to_iso(t);
        let b = out.as_bytes();
        assert_eq!(b.len(), 20, "t={}", t);
        for (i, &c) in b.iter().enumerate() {
            match i {
                4 | 7 => assert_eq!(c, b'-'),
                10 => assert_eq!(c, b'T'),
                13 | 16 => assert_eq!(c, b':'),
                19 => assert_eq!(c, b'Z'),
                _ => assert!(c.is_ascii_digit(), "t={} pos={}", t, i),
            }
        }
    }
}

#[test]
fn sum_matches_addition() {
    assert_eq!(sum(0, 0), 0);
    assert_eq!(sum(1, 2), 3);
    assert_eq!(sum(41, 1), 42);
    assert_eq!(sum(usize::MAX - 1, 1), usize::MAX);
}

#[test]
fn sum_commutes() {
    let cases: Vec<(usize, usize)> = vec![(0, 5), (1, 2), (123, 456), (usize::MAX - 7, 7)];
    for &(a, b) in &cases {
        assert_eq!(sum(a, b), sum(b, a));
        assert_eq!(sum(a, b), a + b);
    }
}

#[test]
fn repeated_calls_are_identical() {
    assert_eq!(from_duration(3661, 42), from_duration(3661, 42));
    assert_eq!(to_iso(1_518_563_312), to_iso(1_518_563_312));
    assert_eq!(sum(7, 35), sum(7, 35));
}

#[test]
fn normalize_duration_carries_whole_seconds() {
    assert_eq!(normalize_duration(0, 0), Some((0, 0)));
    assert_eq!(normalize_duration(5, 999_999_999), Some((5, 999_999_999)));
    assert_eq!(normalize_duration(5, 1_000_000_000), Some((6, 0)));
    assert_eq!(normalize_duration(5, 2_500_000_001), Some((7, 500_000_001)));
    assert_eq!(normalize_duration(u64::MAX, 999_999_999), Some((u64::MAX, 999_999_999)));
    assert_eq!(normalize_duration(u64::MAX, 1_000_000_000), None);
}

#[test]
fn normalized_duration_formats_like_std() {
    let (s, n) = normalize_duration(1, 3_500_000_000).unwrap();
    let expected = humantime::format_duration(Duration::new(1, 3_500_000_000)).to_string();
    assert_eq!(duration_to_humatime(s, n), expected);
}
