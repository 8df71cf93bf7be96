use chrono::{Datelike, Local, LocalResult, NaiveDate, TimeZone};
use std::time::{SystemTime, UNIX_EPOCH};
use usage_report::clock::{across_gap, local_instants, read_clock, WallTime};
use usage_report::date::Date;
use usage_report::period::{
    date_to_ts, earliest_timestamp, parse_date, resolve_period, resolve_window, window_at,
    BucketGranularity, PeriodSpec, DEFAULT_PERIOD, PERIOD_ERROR_HINT,
};

fn day(year: i32, month: u32, day: u32) -> Date {
    Date::new(year, month, day).unwrap()
}

#[test]
fn resolve_period_defaults_to_thirty_day_weekly_window() {
    assert_eq!(
        resolve_period(DEFAULT_PERIOD).unwrap(),
        PeriodSpec::RelativeDays(30)
    );
}

#[test]
fn resolve_period_maps_short_windows_to_relative_days() {
    let resolved: Vec<_> = ["1d", "3d", "7d"]
        .iter()
        .map(|t| resolve_period(t).unwrap())
        .collect();

    assert_eq!(
        resolved,
        vec![
            PeriodSpec::RelativeDays(1),
            PeriodSpec::RelativeDays(3),
            PeriodSpec::RelativeDays(7),
        ]
    );
}

#[test]
fn resolve_period_rejects_unknown_token() {
    assert_eq!(
        resolve_period("90d"),
        Err(
            "Invalid --period value: 90d. Expected one of 1d, 3d, 7d, 30d, \
             <YYYY-MM-DD>, or <YYYY-MM-DD>..<YYYY-MM-DD>."
                .to_string()
        )
    );
}

#[test]
fn resolve_period_accepts_single_date() {
    assert_eq!(
        resolve_period("2026-09-01").unwrap(),
        PeriodSpec::Since(Date::new(2026, 9, 1).unwrap())
    );
}

#[test]
fn resolve_period_accepts_date_range() {
    assert_eq!(
        resolve_period("2026-09-01..2026-09-11").unwrap(),
        PeriodSpec::Range(
            Date::new(2026, 9, 1).unwrap(),
            Date::new(2026, 9, 11).unwrap()
        )
    );
}

#[test]
fn resolve_period_rejects_unpadded_or_garbage_dates() {
    for bad in ["2026-9-1", "foo", "2026-09-01..foo", "2026-09-01..2026-9-1"] {
        assert!(resolve_period(bad).is_err(), "{bad} should be rejected");
    }
}

#[test]
fn resolve_period_rejects_reversed_range() {
    assert!(resolve_period("2026-09-11..2026-09-01").is_err());
}

#[test]
fn resolve_window_maps_relative_and_date_specs() {
    let now = SystemTime::now()
        .duration_since(UNIX_EPOCH)
        .unwrap_or_default()
        .as_secs() as u32;

    // Relative windows stay anchored at "now", granularity by window length.
    let (since, end, label, granularity) = resolve_window(PeriodSpec::RelativeDays(7));
    assert!((end as i64 - now as i64).abs() <= 2);
    assert_eq!(now.saturating_sub(since), 7 * 24 * 3600);
    assert_eq!(label, "last 7 days");
    assert_eq!(granularity, BucketGranularity::Daily);

    // A single date starts at that day's local midnight and runs to now.
    let date = Date::new(2026, 9, 1).unwrap();
    let (since, end, label, granularity) = resolve_window(PeriodSpec::Since(date));
    assert_eq!(since, date_to_ts(date, 0, 0, 0));
    assert_eq!(label, "since 2026-09-01");
    assert_eq!(granularity, BucketGranularity::Daily);
    assert!((end as i64 - now as i64).abs() <= 2);

    // A range is inclusive at both ends (end-of-day on the last day).
    let start = Date::new(2026, 9, 1).unwrap();
    let end_date = Date::new(2026, 9, 11).unwrap();
    let (since, end, label, granularity) = resolve_window(PeriodSpec::Range(start, end_date));
    assert_eq!(since, date_to_ts(start, 0, 0, 0));
    assert_eq!(end, date_to_ts(end_date, 23, 59, 59));
    assert_eq!(label, "2026-09-01 to 2026-09-11");
    assert_eq!(granularity, BucketGranularity::Daily);
}

#[test]
fn a_reversed_range_is_answered_with_its_own_reason() {
    assert_eq!(
        resolve_period("2026-09-11..2026-09-01").unwrap_err(),
        "Invalid --period value: 2026-09-11..2026-09-01. \
         The end date must not precede the start date."
    );
    assert_eq!(
        resolve_period("2026-09-11..2026-13-01").unwrap_err(),
        format!("Invalid --period value: 2026-09-11..2026-13-01. {PERIOD_ERROR_HINT}")
    );
}

#[test]
fn a_range_may_be_a_single_day() {
    let date = day(2026, 9, 1);
    assert_eq!(
        resolve_period("2026-09-01..2026-09-01"),
        Ok(PeriodSpec::Range(date, date))
    );
}

#[test]
fn only_days_of_the_calendar_are_dates() {
    assert_eq!(parse_date("2024-02-29"), Some(day(2024, 2, 29)));
    assert_eq!(parse_date("0000-02-29"), Some(day(0, 2, 29)));
    assert_eq!(parse_date("9999-12-31"), Some(day(9999, 12, 31)));
    for bad in [
        "2023-02-29", "1900-02-29", "2026-04-31", "2026-00-10", "2026-13-10", "2026-01-00",
        "2026-01-32", "2026/01/01", " 026-01-01", "+026-01-01", "-026-01-01", "2026-01-1 ",
        "2026-01-0é", "２026-01-01", "2026-01-011", "",
    ] {
        assert_eq!(parse_date(bad), None, "{bad} should be rejected");
    }
}

#[test]
fn tokens_are_split_at_the_first_two_dots() {
    for bad in ["..", "2026-09-01..", "..2026-09-01", "2026-09-01...2026-09-02",
        "2026-09-01..2026-09-02..2026-09-03", "1d..3d", " 1d", "1D", ""] {
        assert_eq!(
            resolve_period(bad).unwrap_err(),
            format!("Invalid --period value: {bad}. {PERIOD_ERROR_HINT}")
        );
    }
}

#[test]
fn every_day_is_read_back_from_its_text() {
    let mut date = chrono::NaiveDate::from_ymd_opt(1899, 12, 1).unwrap();
    for _ in 0..60_000 {
        let text = date.to_string();
        let (year, month, day_of_month) = (
            text[0..4].parse().unwrap(),
            text[5..7].parse().unwrap(),
            text[8..10].parse().unwrap(),
        );
        assert_eq!(
            resolve_period(&text),
            Ok(PeriodSpec::Since(day(year, month, day_of_month)))
        );
        date = date.succ_opt().unwrap();
    }
}

#[test]
fn rolling_windows_have_their_names_and_buckets() {
    let unused = WallTime::Once(9);
    let now = Some(1_700_000_000);
    for (days, label, granularity) in [
        (1, "last 24 hours", BucketGranularity::Daily),
        (3, "last 3 days", BucketGranularity::Daily),
        (7, "last 7 days", BucketGranularity::Daily),
        (8, "last 30 days", BucketGranularity::Weekly),
        (30, "last 30 days", BucketGranularity::Weekly),
    ] {
        assert_eq!(
            window_at(PeriodSpec::RelativeDays(days), now, unused, unused),
            (
                1_700_000_000 - days as u32 * 86_400,
                1_700_000_000,
                label.to_string(),
                granularity
            )
        );
    }
}

#[test]
fn rolling_windows_stay_within_timestamps() {
    for (days, clock, since, end) in [
        (1, Some(100), 0, 100),
        (1, Some(u64::MAX), u32::MAX - 86_400, u32::MAX),
        (1 << 40, Some(5), 0, 5),
        (1, None, 0, 0),
    ] {
        let unused = WallTime::Once(9);
        let window = window_at(PeriodSpec::RelativeDays(days), clock, unused, unused);
        assert_eq!((window.0, window.1), (since, end));
    }
}

#[test]
fn windows_of_dates_start_and_end_at_the_earliest_instants() {
    let date = day(2026, 9, 1);
    let range = PeriodSpec::Range(date, date);
    let once = WallTime::Once(1_788_220_800);
    let skipped = WallTime::Skipped(1_788_307_199, 1_788_303_599);
    let label = "2026-09-01 to 2026-09-01".to_string();
    assert_eq!(
        window_at(range, Some(9), once, WallTime::Once(1_788_307_199)),
        (1_788_220_800, 1_788_307_199, label.clone(), BucketGranularity::Daily)
    );
    assert_eq!(
        window_at(range, Some(9), once, skipped),
        (1_788_220_800, 1_788_303_599, label, BucketGranularity::Daily)
    );
    assert_eq!(
        window_at(PeriodSpec::Since(date), Some(1_800_000_000), skipped, once),
        (
            1_788_303_599,
            1_800_000_000,
            "since 2026-09-01".to_string(),
            BucketGranularity::Daily
        )
    );
}

#[test]
fn a_window_since_a_day_before_unix_time_runs_to_now() {
    let start = WallTime::Once(-86_400);
    let unused = WallTime::Once(9);
    let (since, end, label, _) =
        window_at(PeriodSpec::Since(day(1969, 12, 31)), Some(1_800_000_000), start, unused);
    assert_eq!((since, end), (0, 1_800_000_000));
    assert_eq!(label, "since 1969-12-31");
    let (since, end, _, _) = resolve_window(PeriodSpec::Since(day(1969, 12, 30)));
    assert_eq!(since, 0);
    assert!(since < end);
}

#[test]
fn a_range_beyond_timestamps_ends_with_the_last() {
    let (first, last) = (day(2100, 1, 1), day(2110, 1, 1));
    let (since, end, _, _) = resolve_window(PeriodSpec::Range(first, last));
    assert_eq!(since, date_to_ts(first, 0, 0, 0));
    assert_eq!(end, u32::MAX);
    assert!(since < end);
}

#[test]
fn labels_sign_years_that_need_more_than_four_digits() {
    let label = |date| {
        window_at(PeriodSpec::Since(date), None, WallTime::Once(0), WallTime::Once(0)).2
    };
    assert_eq!(label(day(5, 1, 2)), "since 0005-01-02");
    assert_eq!(label(day(12345, 1, 2)), "since +12345-01-02");
    assert_eq!(label(day(-1, 12, 31)), "since -0001-12-31");
}

#[test]
fn the_earliest_instant_counts() {
    assert_eq!(earliest_timestamp(WallTime::Twice(7, 3)), 3);
    assert_eq!(earliest_timestamp(WallTime::Twice(3, 7)), 3);
    assert_eq!(earliest_timestamp(WallTime::Once(7)), 7);
    assert_eq!(earliest_timestamp(WallTime::Skipped(7, 3)), 3);
    assert_eq!(earliest_timestamp(WallTime::Skipped(3, 7)), 3);
}

#[test]
fn timestamps_stay_within_their_bounds() {
    for (instant, ts) in [
        (-62_167_219_200, 0),
        (-1, 0),
        (0, 0),
        (u32::MAX as i64 - 1, u32::MAX - 1),
        (u32::MAX as i64, u32::MAX),
        (1 << 32, u32::MAX),
        (i64::MAX, u32::MAX),
    ] {
        assert_eq!(earliest_timestamp(WallTime::Once(instant)), ts);
    }
}

/// What a clock on UTC counts when it shows a date and time of day.
fn wall(year: i32, month: u32, day: u32, hour: u32, min: u32, sec: u32) -> i64 {
    let date = NaiveDate::from_ymd_opt(year, month, day).unwrap();
    date.and_hms_opt(hour, min, sec).unwrap().and_utc().timestamp()
}

#[test]
fn a_skipped_time_is_read_by_the_offsets_on_both_sides() {
    // New York: from five hours behind UTC to four.
    let skipped = wall(2026, 3, 8, 2, 30, 0);
    let before = WallTime::Once(skipped - 86_400 + 5 * 3_600);
    let after = WallTime::Once(skipped + 86_400 + 4 * 3_600);
    let time = across_gap(skipped, Some(before), Some(after));
    assert_eq!(time, WallTime::Skipped(skipped + 5 * 3_600, skipped + 4 * 3_600));
    assert_eq!(earliest_timestamp(time), 1_772_951_400);

    // Apia, which had no 30 December 2011: from ten hours behind UTC to fourteen ahead.
    let skipped = wall(2011, 12, 30, 23, 59, 59);
    let before = WallTime::Once(skipped - 86_400 + 10 * 3_600);
    let after = WallTime::Once(skipped + 86_400 - 14 * 3_600);
    let time = across_gap(skipped, Some(before), Some(after));
    assert_eq!(earliest_timestamp(time) as i64, skipped - 14 * 3_600);
}

#[test]
fn a_skipped_time_is_read_by_what_is_known() {
    let known = WallTime::Twice(500_000, 400_000);
    assert_eq!(across_gap(7, Some(known), None), WallTime::Skipped(486_400, 486_400));
    assert_eq!(across_gap(7, None, Some(known)), WallTime::Skipped(313_600, 313_600));
    assert_eq!(across_gap(7, None, None), WallTime::Skipped(7, 7));
}

#[test]
fn local_times_are_those_of_local_clocks() {
    let mut date = NaiveDate::from_ymd_opt(1960, 1, 1).unwrap();
    for k in 0..60_000 {
        let (hour, min, sec) = (k % 24, k * 7 % 60, k * 11 % 60);
        let d = day(date.year(), date.month(), date.day());
        let time = local_instants(d, hour, min, sec);
        match Local.from_local_datetime(&date.and_hms_opt(hour, min, sec).unwrap()) {
            LocalResult::Single(t) => assert_eq!(time, WallTime::Once(t.timestamp())),
            LocalResult::Ambiguous(t, u) => {
                assert_eq!(time, WallTime::Twice(t.timestamp(), u.timestamp()))
            }
            LocalResult::None => assert!(matches!(time, WallTime::Skipped(_, _))),
        }
        assert_eq!(date_to_ts(d, hour, min, sec), earliest_timestamp(time));
        date = date.succ_opt().unwrap();
    }
}

#[test]
fn the_ends_of_the_calendar_have_timestamps() {
    for (hour, min, sec) in [(0, 0, 0), (12, 30, 1), (23, 59, 59)] {
        assert_eq!(date_to_ts(day(-262_143, 1, 1), hour, min, sec), 0);
        assert_eq!(date_to_ts(day(262_142, 12, 31), hour, min, sec), u32::MAX);
    }
}

#[test]
fn the_clock_counts_whole_seconds() {
    let before = SystemTime::now().duration_since(UNIX_EPOCH).unwrap().as_secs();
    let clock = read_clock().unwrap();
    let after = SystemTime::now().duration_since(UNIX_EPOCH).unwrap().as_secs();
    assert!(before <= clock && clock <= after);
}

#[test]
fn local_midnight_is_what_local_clocks_show() {
    for (year, month, d) in [(2026, 9, 1), (1970, 1, 2), (2000, 2, 29), (2100, 12, 31)] {
        if let WallTime::Once(_) = local_instants(day(year, month, d), 13, 5, 9) {
            let ts = date_to_ts(day(year, month, d), 13, 5, 9);
            let shown = Local.timestamp_opt(ts as i64, 0).unwrap();
            assert_eq!(
                shown.naive_local().to_string(),
                format!("{year:04}-{month:02}-{d:02} 13:05:09")
            );
        }
    }
}

#[test]
fn a_range_is_a_whole_number_of_days() {
    // Seconds at one offset from UTC.
    let start = WallTime::Once(1_788_220_800 - 7_200);
    let end = WallTime::Once(1_788_220_800 + 11 * 86_400 - 1 - 7_200);
    let range = PeriodSpec::Range(day(2026, 9, 1), day(2026, 9, 11));
    let (since, until, _, _) = window_at(range, Some(9), start, end);
    assert_eq!(until - since + 1, 11 * 86_400);
}

#[test]
fn dates_are_checked_and_ordered() {
    assert_eq!(Date::new(2026, 2, 29), None);
    assert_eq!(Date::new(262_143, 1, 1), None);
    assert_eq!(Date::new(-262_144, 1, 1), None);
    assert!(Date::new(262_142, 12, 31).is_some());
    assert!(Date::new(-262_143, 1, 1).is_some());
    assert!(day(2026, 1, 31).before(&day(2026, 2, 1)));
    assert!(day(2025, 12, 31).before(&day(2026, 1, 1)));
    assert!(!day(2026, 1, 1).before(&day(2026, 1, 1)));
    assert!(!day(2026, 2, 1).before(&day(2026, 1, 31)));
    for year in [-4, 0, 1, 1900, 2000, 2023, 2024, 2100, 2400] {
        for month in 0..14 {
            for d in 0..33 {
                assert_eq!(
                    Date::new(year, month, d).is_some(),
                    chrono::NaiveDate::from_ymd_opt(year, month, d).is_some()
                );
            }
        }
    }
}
