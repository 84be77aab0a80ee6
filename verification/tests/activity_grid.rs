use chrono::{Datelike, NaiveDate};
use sara::commands::activity::{activity_title, heat_max, heatmap_months, heatmap_rows, legend_levels, weekday_label};

fn day(y: i32, m: u32, d: u32) -> i32 {
    NaiveDate::from_ymd_opt(y, m, d).unwrap().num_days_from_ce()
}

#[test]
fn heat_max_is_the_busiest_day_and_at_least_one() {
    assert_eq!(heat_max(&vec![]), 1);
    assert_eq!(heat_max(&vec![(1, 3), (2, 7), (3, 5)]), 7);
    assert_eq!(heat_max(&vec![(1, u64::MAX)]), u32::MAX);
}

#[test]
fn months_are_written_where_a_column_starts_a_new_month() {
    // Wednesday 2026-01-14: the last column is the week from Sunday the 11th.
    let months = heatmap_months(day(2026, 1, 14), 3, 4);
    assert_eq!(months, vec![Some(12), None, Some(1), None]);
}

#[test]
fn cells_follow_sunday_to_saturday_weeks_ending_with_this_one() {
    let today = day(2026, 1, 14);
    let totals = vec![(day(2025, 12, 21) as i64, 4), (day(2026, 1, 5) as i64, 1)];
    let max = heat_max(&totals);
    let rows = heatmap_rows(&totals, max, today, 3, 4);
    assert_eq!(rows.len(), 7);
    assert!(rows.iter().all(|r| r.len() == 4));
    // Column 0 starts on Sunday 2025-12-21.
    assert_eq!(rows[0][0], Some(4));
    // Monday 2026-01-05 sits in row 1 of the week from Sunday the 4th.
    assert_eq!(rows[1][2], Some(2));
    assert_eq!(rows[1][0], Some(0));
    // Today is drawn; the days after it are not.
    assert_eq!(rows[3][3], Some(0));
    assert_eq!(rows[4][3], None);
    assert_eq!(rows[6][3], None);
}

#[test]
fn legend_and_labels() {
    assert_eq!(legend_levels(4), vec![0, 2, 4, 4, 4]);
    assert_eq!(weekday_label(1), "Mon");
    assert_eq!(weekday_label(0), "   ");
    assert_eq!(weekday_label(5), "Fri");
    assert_eq!(activity_title(Some("tk")), " Activity — tk ");
    assert_eq!(activity_title(None), " Activity — all projects ");
}
