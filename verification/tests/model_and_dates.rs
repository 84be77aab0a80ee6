use sara::commands::activity::{activity_streaks, heat_level, heatmap_weeks, month_abbr};
use sara::dates::{is_valid_due, parse_due, UtcTime};
use sara::model::{add_months, advance_by_interval, days_in_month, format_duration, Priority, Status};

const DAY: i64 = 86_400;

// 2024-01-31T12:00:00Z
fn jan31() -> UtcTime {
    UtcTime { secs: 1_706_702_400, nanos: 0 }
}

#[test]
fn priorities_parse_in_any_case_and_print_as_letters() {
    assert_eq!("h".parse::<Priority>(), Ok(Priority::H));
    assert_eq!("high".parse::<Priority>(), Ok(Priority::H));
    assert_eq!("Med".parse::<Priority>(), Ok(Priority::M));
    assert_eq!("LOW".parse::<Priority>(), Ok(Priority::L));
    assert_eq!("x".parse::<Priority>(), Err("Unknown priority: x".to_string()));
    assert_eq!(Priority::M.label(), "M");
    assert_eq!(Priority::H.to_string(), "H");
    assert_eq!(Status::Completed.to_string(), "completed");
}

#[test]
fn durations_read_as_hours_and_minutes() {
    assert_eq!(format_duration(0), "0m");
    assert_eq!(format_duration(-5), "0m");
    assert_eq!(format_duration(59), "0m");
    assert_eq!(format_duration(125), "2m");
    assert_eq!(format_duration(3600), "1h 0m");
    assert_eq!(format_duration(5430), "1h 30m");
}

#[test]
fn month_lengths_follow_the_gregorian_calendar() {
    assert_eq!(days_in_month(2023, 2), 28);
    assert_eq!(days_in_month(2024, 2), 29);
    assert_eq!(days_in_month(1900, 2), 28);
    assert_eq!(days_in_month(2000, 2), 29);
    assert_eq!(days_in_month(2024, 4), 30);
    assert_eq!(days_in_month(2024, 12), 31);
    assert_eq!(days_in_month(2024, 13), 30);
    assert_eq!(month_abbr(3), "Mar");
    assert_eq!(month_abbr(0), "???");
}

#[test]
fn recurrence_intervals_advance_the_date() {
    let t = jan31();
    assert_eq!(advance_by_interval(t, "daily").unwrap().secs, t.secs + DAY);
    assert_eq!(advance_by_interval(t, " Weekly ").unwrap().secs, t.secs + 7 * DAY);
    assert_eq!(advance_by_interval(t, "3d").unwrap().secs, t.secs + 3 * DAY);
    assert_eq!(advance_by_interval(t, "2w").unwrap().secs, t.secs + 14 * DAY);
    assert_eq!(advance_by_interval(t, "whenever").unwrap().secs, t.secs + 7 * DAY);
    // 2025-01-31T12:00:00Z: a year on keeps the day.
    assert_eq!(advance_by_interval(t, "yearly").unwrap().secs, 1_738_324_800);
    // 2024-03-31T12:00:00Z: two months on.
    assert_eq!(advance_by_interval(t, "2m").unwrap().secs, 1_711_886_400);
}

#[test]
fn a_month_from_the_31st_clamps_to_the_end_of_february() {
    // 2024 is a leap year: 2024-02-29T12:00:00Z.
    assert_eq!(advance_by_interval(jan31(), "monthly").unwrap().secs, 1_709_208_000);
    assert_eq!(add_months(jan31(), 1).unwrap().secs, 1_709_208_000);
    // 2026-01-31T09:00:00Z plus a month is 2026-02-28T09:00:00Z.
    let t = UtcTime { secs: 1_769_850_000, nanos: 0 };
    assert_eq!(advance_by_interval(t, "monthly").unwrap().secs, 1_772_269_200);
}

#[test]
fn a_day_count_beyond_the_calendar_has_no_date() {
    assert_eq!(advance_by_interval(jan31(), "99999999999d"), None);
}

#[test]
fn due_dates_read_iso_relative_and_natural_forms() {
    // An ISO date means the end of that day, UTC.
    let d = parse_due(" 2026-07-01 ", "uk").unwrap();
    assert_eq!(d.secs, 1_782_950_399);
    assert!(parse_due("", "uk").is_none());
    assert!(parse_due("   ", "uk").is_none());
    let before = chrono::Utc::now().timestamp();
    let plus3 = parse_due("+3d", "uk").unwrap().secs;
    assert!(plus3 >= before + 3 * DAY && plus3 <= before + 3 * DAY + 60);
    let plus2w = parse_due("+2w", "uk").unwrap().secs;
    assert!(plus2w >= before + 14 * DAY && plus2w <= before + 14 * DAY + 60);
    let today = parse_due("TODAY", "uk").unwrap().secs;
    assert!(today >= before && today <= before + 60);
    assert!(parse_due("next friday", "uk").is_some());
    assert!(is_valid_due(""));
    assert!(is_valid_due("2026-07-01"));
    assert!(!is_valid_due("not-a-date"));
}

#[test]
fn heat_levels_split_the_maximum_in_quarters() {
    assert_eq!(heat_level(0, 8), 0);
    assert_eq!(heat_level(1, 8), 1);
    assert_eq!(heat_level(2, 8), 2);
    assert_eq!(heat_level(4, 8), 3);
    assert_eq!(heat_level(6, 8), 4);
    assert_eq!(heat_level(8, 8), 4);
    assert_eq!(heat_level(3, 0), 4);
    assert_eq!(heatmap_weeks(0), 4);
    assert_eq!(heatmap_weeks(80), 10);
    assert_eq!(heatmap_weeks(1000), 52);
}

#[test]
fn streaks_count_consecutive_days() {
    let dates: Vec<String> = ["2024-03-01", "2024-03-02", "2024-03-02", "bad", "2024-03-05", "2024-03-06", "2024-03-07"]
        .iter()
        .map(|s| s.to_string())
        .collect();
    // 2024-03-07 is day 738952 counted from 1 January of year 1.
    let mar7 = 738_952;
    assert_eq!(activity_streaks(&dates, mar7), (3, 3));
    assert_eq!(activity_streaks(&dates, mar7 + 1), (3, 3));
    assert_eq!(activity_streaks(&dates, mar7 + 2), (0, 3));
    assert_eq!(activity_streaks(&vec![], mar7), (0, 0));
}
