use hat::clock::{beijing_clock, format_duration, DAY};

#[test]
fn durations_are_hours_minutes_and_seconds() {
    assert_eq!(format_duration(0), "00:00:00");
    assert_eq!(format_duration(59), "00:00:59");
    assert_eq!(format_duration(61), "00:01:01");
    assert_eq!(format_duration(3661), "01:01:01");
    assert_eq!(format_duration(86399), "23:59:59");
    assert_eq!(format_duration(360000), "100:00:00");
}

#[test]
fn clock_is_eight_hours_ahead() {
    assert_eq!(beijing_clock(0), "08:00:00");
    // 2021-01-01 00:00:00 UTC
    assert_eq!(beijing_clock(1609459200), "08:00:00");
    assert_eq!(beijing_clock(1609459199), "07:59:59");
    assert_eq!(beijing_clock(16 * 3600), "00:00:00");
    // u64::MAX is 25215 seconds into its day.
    assert_eq!(u64::MAX % DAY, 25215);
    assert_eq!(beijing_clock(u64::MAX), "15:00:15");
}

#[test]
fn clock_repeats_daily() {
    for second in [0u64, 1, 12345, 86399] {
        assert_eq!(beijing_clock(second), beijing_clock(second + DAY));
        assert_eq!(beijing_clock(second).len(), 8);
    }
}
