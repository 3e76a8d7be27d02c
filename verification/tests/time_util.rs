use usage_tank::time_util::{
    days_from_civil, format_duration, parse_iso8601, parse_tz, time_until, time_until_at,
    time_until_from_clock,
};

#[test]
fn parses_utc_timestamp() {
    assert_eq!(parse_iso8601("2026-05-05T18:30:00Z"), Some(1778005800));
}

#[test]
fn zone_forms_agree() {
    let z = parse_iso8601("2026-05-05T18:30:00Z");
    assert_eq!(parse_iso8601("2026-05-05T18:30:00+00:00"), z);
    assert_eq!(parse_iso8601("2026-05-05T18:30:00.123Z"), z);
    assert_eq!(parse_iso8601("2026-05-05T18:30:00"), z);
    assert_eq!(parse_iso8601("  2026-05-05T18:30:00Z \n"), z);
}

#[test]
fn zone_offsets_shift_the_moment() {
    assert_eq!(parse_iso8601("2026-05-05T18:30:00+09:00"), Some(1778005800 - 9 * 3600));
    assert_eq!(parse_iso8601("2026-05-05T18:30:00-0530"), Some(1778005800 + 5 * 3600 + 30 * 60));
    assert_eq!(parse_iso8601("2026-05-05T18:30:00+02"), Some(1778005800 - 2 * 3600));
    // Minutes that do not parse count as zero.
    assert_eq!(parse_iso8601("2026-05-05T18:30:00+02:x"), Some(1778005800 - 2 * 3600));
}

#[test]
fn rejects_malformed_timestamps() {
    assert_eq!(parse_iso8601("garbage"), None);
    assert_eq!(parse_iso8601("2026-05-05T18:30"), None);
    assert_eq!(parse_iso8601("2026-05-05T18:30:00X"), None);
    assert_eq!(parse_iso8601("2026-05-05T18:30:00+"), None);
    assert_eq!(parse_iso8601("20x6-05-05T18:30:00Z"), None);
    assert_eq!(parse_iso8601("2026\u{e9}05-05T18:30:00Z"), None);
}

#[test]
fn separators_are_not_checked() {
    assert_eq!(parse_iso8601("2026/05/05 18.30.00Z"), Some(1778005800));
}

#[test]
fn counts_days_from_the_epoch() {
    assert_eq!(days_from_civil(1970, 1, 1), 0);
    assert_eq!(days_from_civil(1969, 12, 31), -1);
    assert_eq!(days_from_civil(2000, 3, 1), 11017);
    assert_eq!(days_from_civil(2000, 2, 29) + 1, days_from_civil(2000, 3, 1));
    assert_eq!(days_from_civil(2026, 5, 5), 20578);
    assert_eq!(days_from_civil(-1, 1, 1), -719893);
}

#[test]
fn formats_durations() {
    assert_eq!(format_duration(90061), "1d 1h");
    assert_eq!(format_duration(86400), "1d 0h");
    assert_eq!(format_duration(3660), "1h 1m");
    assert_eq!(format_duration(3599), "59m");
    assert_eq!(format_duration(120), "2m");
    assert_eq!(format_duration(59), "0m");
    assert_eq!(format_duration(45), "0m");
    assert_eq!(format_duration(60), "1m");
    assert_eq!(format_duration(0), "0m");
    assert_eq!(format_duration(-5), "0m");
    assert_eq!(format_duration(-65), "-1m");
}

#[test]
fn time_until_from_a_given_second() {
    let t = 1778005800;
    assert_eq!(time_until_at("2026-05-05T18:30:00Z", t - 3600).as_deref(), Some("1h 0m"));
    assert_eq!(time_until_at("2026-05-05T18:30:00Z", t - 2 * 86400 - 7200).as_deref(), Some("2d 2h"));
    assert_eq!(time_until_at("2026-05-05T18:30:00Z", t - 30).as_deref(), Some("0m"));
    assert_eq!(time_until_at("2026-05-05T18:30:00Z", t), None);
    assert_eq!(time_until_at("2026-05-05T18:30:00Z", t + 1), None);
    assert_eq!(time_until_at("soon", t), None);
}

#[test]
fn time_until_reads_the_clock() {
    assert_eq!(time_until("1970-01-01T00:00:00Z"), None);
    assert_eq!(time_until("not a time"), None);
    let far = time_until("9999-01-01T00:00:00Z").expect("a moment far ahead");
    assert!(far.ends_with('h') && far.contains("d "));
}

#[test]
fn parses_zone_suffixes() {
    assert_eq!(parse_tz(""), Some(0));
    assert_eq!(parse_tz("Z"), Some(0));
    assert_eq!(parse_tz("+00:00"), Some(0));
    assert_eq!(parse_tz("+05:30"), Some(5 * 3600 + 30 * 60));
    assert_eq!(parse_tz("-0800"), Some(-8 * 3600));
    assert_eq!(parse_tz("z"), None);
    assert_eq!(parse_tz("+5"), None);
    assert_eq!(parse_tz("Z1"), None);
}

#[test]
fn time_until_from_a_clock_reading() {
    let t: u64 = 1778005800;
    assert_eq!(time_until_from_clock("2026-05-05T18:30:00Z", Some(t - 3600)).as_deref(), Some("1h 0m"));
    assert_eq!(time_until_from_clock("2026-05-05T18:30:00Z", Some(t)), None);
    assert_eq!(time_until_from_clock("2026-05-05T18:30:00Z", None), None);
    assert_eq!(time_until_from_clock("2026-05-05T18:30:00Z", Some(u64::MAX)), None);
    assert_eq!(time_until_from_clock("soon", Some(0)), None);
}
