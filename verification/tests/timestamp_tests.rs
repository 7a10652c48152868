//! Timestamp formatting at the fixed UTC+8 offset.

use startup::timestamp::format_timestamp;

#[test]
fn epoch_renders_as_utc8_morning() {
    assert_eq!(format_timestamp(0), "1970-01-01 08:00:00.000");
}

#[test]
fn known_instant_renders_with_millisecond_precision() {
    // 2023-11-14 22:13:20.123 UTC is 2023-11-15 06:13:20.123 at UTC+8.
    assert_eq!(format_timestamp(1_700_000_000_123), "2023-11-15 06:13:20.123");
}

#[test]
fn leap_day_is_rendered() {
    // 2024-02-29 00:00:00 UTC+8.
    assert_eq!(format_timestamp(1_709_164_800_000), "2024-02-29 08:00:00.000");
}

#[test]
fn utc_evening_rolls_into_the_next_utc8_day() {
    // 2024-02-29 16:00:00 UTC is already 2024-03-01 at UTC+8.
    assert_eq!(format_timestamp(1_709_222_400_000), "2024-03-01 00:00:00.000");
}

#[test]
fn last_millisecond_of_a_year() {
    // 2023-12-31 23:59:59.999 UTC+8 is 15:59:59.999 UTC of the same day.
    assert_eq!(format_timestamp(1_704_038_399_999), "2023-12-31 23:59:59.999");
}

#[test]
fn fields_are_zero_padded() {
    // 2001-02-03 04:05:06.007 UTC+8.
    let s = format_timestamp(981_144_306_007);
    assert_eq!(s, "2001-02-03 04:05:06.007");
}
