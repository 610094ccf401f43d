use kasmctl::civil::{civil_to_epoch, epoch_to_datetime};
use kasmctl::display::{format_bytes, format_duration_ago, parse_datetime_to_epoch, relative_age, short_id};

/// A fixed stand-in for the current wall-clock time in tests.
const NOW: u64 = 1_750_000_000;

// --- short_id ---

#[test]
fn short_id_truncates_to_8_chars() {
    assert_eq!(short_id("550e8400-e29b-41d4"), "550e8400");
}

#[test]
fn short_id_returns_whole_string_when_short() {
    assert_eq!(short_id("abc"), "abc");
}

#[test]
fn short_id_returns_exactly_8_chars_unchanged() {
    assert_eq!(short_id("12345678"), "12345678");
}

#[test]
fn short_id_empty_string() {
    assert_eq!(short_id(""), "");
}

// --- parse_datetime_to_epoch ---

#[test]
fn parse_known_date() {
    // 2024-01-15 12:30:45 UTC = 1705321845
    assert_eq!(
        parse_datetime_to_epoch("2024-01-15 12:30:45"),
        Some(1705321845)
    );
}

#[test]
fn parse_unix_epoch_origin() {
    assert_eq!(parse_datetime_to_epoch("1970-01-01 00:00:00"), Some(0));
}

#[test]
fn parse_returns_none_on_bad_format() {
    assert_eq!(parse_datetime_to_epoch("not a date"), None);
    assert_eq!(parse_datetime_to_epoch("2024-13-01 00:00:00"), None); // invalid month
    assert_eq!(parse_datetime_to_epoch("2024-01-01 25:00:00"), None); // invalid hour
}

#[test]
fn parse_rejects_multibyte_characters() {
    // 19 characters but 20 bytes: a two-byte character at a separator
    // position must be rejected, as a byte-length check would do.
    assert_eq!(parse_datetime_to_epoch("2024\u{e9}01-15 12:30:45"), None);
    // 18 characters in 19 bytes fails the length check as well.
    assert_eq!(parse_datetime_to_epoch("\u{e9}024-01-15 12:30:4"), None);
}

#[test]
fn relative_age_echoes_multibyte_separator_strings() {
    let odd = "2024\u{e9}01-15 12:30:45";
    assert_eq!(relative_age(odd, NOW), odd);
}

#[test]
fn parse_rejects_instants_before_1970() {
    assert_eq!(parse_datetime_to_epoch("1969-12-31 23:59:59"), None);
}

#[test]
fn parse_accepts_day_31_in_short_month() {
    // The range check is syntactic only: day 31 in a 30-day month passes.
    assert!(parse_datetime_to_epoch("2024-04-31 00:00:00").is_some());
}

// --- format_duration_ago ---

#[test]
fn format_seconds() {
    assert_eq!(format_duration_ago(45), "45s ago");
}

#[test]
fn format_minutes() {
    assert_eq!(format_duration_ago(90), "1m ago");
    assert_eq!(format_duration_ago(3599), "59m ago");
}

#[test]
fn format_hours() {
    assert_eq!(format_duration_ago(3600), "1h ago");
    assert_eq!(format_duration_ago(5400), "1h ago"); // 90 minutes = 1h
    assert_eq!(format_duration_ago(86399), "23h ago");
}

#[test]
fn format_days() {
    assert_eq!(format_duration_ago(86400), "1d ago");
    assert_eq!(format_duration_ago(90000), "1d ago"); // 25h = 1d
}

// --- relative_age ---

#[test]
fn relative_age_falls_back_on_bad_input() {
    let bad = "not-a-datetime";
    assert_eq!(relative_age(bad, NOW), bad);
}

#[test]
fn relative_age_renders_elapsed_time() {
    let base = parse_datetime_to_epoch("2024-01-15 12:30:45").unwrap();
    assert_eq!(relative_age("2024-01-15 12:30:45", base + 90), "1m ago");
    assert_eq!(relative_age("2024-01-15 12:30:45", base + 7200), "2h ago");
}

#[test]
fn relative_age_is_zero_for_future_timestamps() {
    let base = parse_datetime_to_epoch("2024-01-15 12:30:45").unwrap();
    assert_eq!(relative_age("2024-01-15 12:30:45", base - 50), "0s ago");
}

// --- civil conversions ---

#[test]
fn epoch_to_datetime_origin_fixed_point() {
    assert_eq!(epoch_to_datetime(0), (1970, 1, 1, 0, 0, 0));
}

#[test]
fn civil_to_epoch_origin_fixed_point() {
    assert_eq!(civil_to_epoch(1970, 1, 1, 0, 0, 0), Some(0));
}

#[test]
fn epoch_to_datetime_known_fixed_point() {
    assert_eq!(epoch_to_datetime(1705321845), (2024, 1, 15, 12, 30, 45));
}

#[test]
fn civil_to_epoch_rejects_out_of_range_fields() {
    assert_eq!(civil_to_epoch(2024, 0, 1, 0, 0, 0), None);
    assert_eq!(civil_to_epoch(2024, 13, 1, 0, 0, 0), None);
    assert_eq!(civil_to_epoch(2024, 1, 0, 0, 0, 0), None);
    assert_eq!(civil_to_epoch(2024, 1, 32, 0, 0, 0), None);
    assert_eq!(civil_to_epoch(2024, 1, 1, 24, 0, 0), None);
    assert_eq!(civil_to_epoch(2024, 1, 1, 0, 60, 0), None);
    assert_eq!(civil_to_epoch(2024, 1, 1, 0, 0, 60), None);
}

#[test]
fn civil_to_epoch_rejects_pre_epoch_dates() {
    assert_eq!(civil_to_epoch(1969, 12, 31, 23, 59, 59), None);
    assert_eq!(civil_to_epoch(0, 1, 1, 0, 0, 0), None);
}

#[test]
fn epoch_civil_round_trip_over_sampled_range() {
    // Sample the supported range (1970 through 9999) with a coarse prime
    // stride plus the boundary values and leap-year edges.
    let max = 253_402_300_799u64;
    let mut samples: Vec<u64> = Vec::new();
    let mut e = 0u64;
    while e <= max {
        samples.push(e);
        e += 86_399_000_039; // prime-ish stride of roughly 1000 days
    }
    for extra in [
        0,
        1,
        86399,
        86400,
        951_782_399, // 2000-02-28 23:59:59
        951_782_400, // 2000-02-29 00:00:00
        951_868_800, // 2000-03-01 00:00:00
        1_705_321_845,
        4_107_542_399, // 2100-02-28 23:59:59 (2100 is no leap year)
        4_107_542_400, // 2100-03-01 00:00:00
        max,
    ] {
        samples.push(extra);
    }
    for &epoch in &samples {
        let (y, mo, d, hh, mi, ss) = epoch_to_datetime(epoch);
        assert!((1970..=9999).contains(&y));
        assert!((1..=12).contains(&mo));
        assert!((1..=31).contains(&d));
        assert!(hh <= 23 && mi <= 59 && ss <= 59);
        assert_eq!(civil_to_epoch(y, mo, d, hh, mi, ss), Some(epoch));
    }
}

#[test]
fn epoch_to_datetime_produces_valid_components() {
    // Deterministic sweep standing in for the randomized range check.
    let max = 253_402_300_799u64;
    let mut epoch = 0u64;
    while epoch <= max {
        let (year, month, day, hour, min, sec) = epoch_to_datetime(epoch);
        assert!((1970..=9999).contains(&year));
        assert!((1..=12).contains(&month));
        assert!((1..=31).contains(&day));
        assert!(hour <= 23);
        assert!(min <= 59);
        assert!(sec <= 59);
        epoch += 997_920_011; // prime stride
    }
}

// --- format_bytes ---

#[test]
fn image_memory_format_bytes_gb() {
    assert_eq!(format_bytes(4_294_967_296), "4GB");
}

#[test]
fn image_memory_format_bytes_mb() {
    assert_eq!(format_bytes(524_288_000), "500MB");
}

#[test]
fn image_memory_format_bytes_raw() {
    assert_eq!(format_bytes(12345), "12345");
}

#[test]
fn format_bytes_negative_is_plain_decimal() {
    assert_eq!(format_bytes(-42), "-42");
}

#[test]
fn format_bytes_gb_takes_precedence_over_mb() {
    assert_eq!(format_bytes(1_073_741_824), "1GB");
    assert_eq!(format_bytes(1_048_576), "1MB");
    assert_eq!(format_bytes(1_048_577), "1048577");
}
