use dep_lens_core::util::{iso8601_from_unix, now_iso8601, timestamp_text};

#[test]
fn epoch_start() {
    assert_eq!(iso8601_from_unix(0), "1970-01-01T00:00:00Z");
}

#[test]
fn end_of_first_day() {
    assert_eq!(iso8601_from_unix(86_399), "1970-01-01T23:59:59Z");
}

#[test]
fn known_timestamps() {
    // date -u -d @1000000000
    assert_eq!(iso8601_from_unix(1_000_000_000), "2001-09-09T01:46:40Z");
    // 2024-02-29 leap day, midnight UTC
    assert_eq!(iso8601_from_unix(1_709_164_800), "2024-02-29T00:00:00Z");
    // 2026-01-01T00:00:00Z
    assert_eq!(iso8601_from_unix(1_767_225_600), "2026-01-01T00:00:00Z");
}

#[test]
fn now_is_well_formed() {
    let now = now_iso8601();
    assert_eq!(now.len(), 20);
    assert!(now.ends_with('Z'));
    assert_eq!(&now[4..5], "-");
    assert_eq!(&now[10..11], "T");
}

#[test]
fn century_and_far_dates() {
    // 2000-02-29 (a leap day in a year divisible by 400)
    assert_eq!(iso8601_from_unix(951_782_400), "2000-02-29T00:00:00Z");
    // 2100-03-01: 2100 is not a leap year
    assert_eq!(iso8601_from_unix(4_107_542_400), "2100-03-01T00:00:00Z");
    // 9999-12-31T23:59:59Z
    assert_eq!(iso8601_from_unix(253_402_300_799), "9999-12-31T23:59:59Z");
    // year 10000 is written with five digits
    assert_eq!(iso8601_from_unix(253_402_300_800), "10000-01-01T00:00:00Z");
}

#[test]
fn later_instants_sort_later_and_read_back() {
    let instants: [u64; 7] = [0, 59, 3_600, 86_399, 86_400, 951_782_400, 253_402_300_799];
    for pair in instants.windows(2) {
        assert!(iso8601_from_unix(pair[0]) < iso8601_from_unix(pair[1]));
    }
    let s = iso8601_from_unix(951_782_400 + 3 * 3600 + 4 * 60 + 5);
    assert_eq!(s, "2000-02-29T03:04:05Z");
    let field = |a: usize, b: usize| s[a..b].parse::<u64>().unwrap();
    assert_eq!((field(0, 4), field(5, 7), field(8, 10)), (2000, 2, 29));
    assert_eq!(field(11, 13) * 3600 + field(14, 16) * 60 + field(17, 19), 3 * 3600 + 4 * 60 + 5);
}

#[test]
fn clock_before_the_epoch_reads_as_the_epoch() {
    assert_eq!(timestamp_text(None), "1970-01-01T00:00:00Z");
    assert_eq!(timestamp_text(Some(0)), "1970-01-01T00:00:00Z");
    assert_eq!(timestamp_text(Some(1_709_164_800)), "2024-02-29T00:00:00Z");
}
