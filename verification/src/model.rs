//! Task vocabulary: priorities, statuses, durations and recurrence.

use vstd::prelude::*;
use crate::dates::{
    add_days, add_weeks, day, day_of, day_set, days_added, month0, month0_of, month_set,
    weeks_added, with_day, with_month, with_year, year, year_of, year_set, in_chrono_range,
    time_of_day, UtcTime, MAX_YEAR, MIN_YEAR,
};
use crate::text::{
    concat2, fmt_u64, lower_of, nat_digits, parse_i64, parse_i64_spec, str_eq, strip_suffix,
    strip_suffix_spec, to_lowercase, to_uppercase, trim, trim_spec, upper_of,
};

verus! {

#[derive(Clone, Copy, Debug, PartialEq, Eq, Structural)]
pub enum Priority {
    H,
    M,
    L,
}

/// The priority a case-folded name denotes.
pub open spec fn priority_named(u: Seq<char>) -> Option<Priority> {
    if u == "H"@ || u == "HIGH"@ {
        Some(Priority::H)
    } else if u == "M"@ || u == "MED"@ || u == "MEDIUM"@ {
        Some(Priority::M)
    } else if u == "L"@ || u == "LOW"@ {
        Some(Priority::L)
    } else {
        None
    }
}

pub open spec fn priority_label(p: Priority) -> Seq<char> {
    match p {
        Priority::H => "H"@,
        Priority::M => "M"@,
        Priority::L => "L"@,
    }
}

impl Priority {
    pub fn label(&self) -> (r: &'static str)
        ensures
            r@ == priority_label(*self),
    {
        match self {
            Priority::H => "H",
            Priority::M => "M",
            Priority::L => "L",
        }
    }

    /// The label as an owned string (what `Display` writes).
    pub fn to_string(&self) -> (r: String)
        ensures
            r@ == priority_label(*self),
    {
        String::from_str(self.label())
    }

    /// Parse `H`/`HIGH`, `M`/`MED`/`MEDIUM`, `L`/`LOW`, in any case (the
    /// name is upper-cased first).
    pub fn from_name(s: &str) -> (r: Option<Priority>)
        ensures
            r == priority_named(upper_of(s@)),
    {
        let u = to_uppercase(s);
        let u = u.as_str();
        if str_eq(u, "H") || str_eq(u, "HIGH") {
            Some(Priority::H)
        } else if str_eq(u, "M") || str_eq(u, "MED") || str_eq(u, "MEDIUM") {
            Some(Priority::M)
        } else if str_eq(u, "L") || str_eq(u, "LOW") {
            Some(Priority::L)
        } else {
            None
        }
    }
}

impl std::str::FromStr for Priority {
    type Err = String;

    fn from_str(s: &str) -> (r: Result<Priority, String>)
        ensures
            match priority_named(upper_of(s@)) {
                Some(p) => r == Ok::<Priority, String>(p),
                None => r matches Err(e) && e@ == "Unknown priority: "@ + s@,
            },
    {
        match Priority::from_name(s) {
            Some(p) => Ok(p),
            None => Err(concat2("Unknown priority: ", s)),
        }
    }
}

#[derive(Clone, Copy, Debug, PartialEq, Eq, Structural)]
pub enum Status {
    Pending,
    Completed,
    Deleted,
}

pub open spec fn status_name(s: Status) -> Seq<char> {
    match s {
        Status::Pending => "pending"@,
        Status::Completed => "completed"@,
        Status::Deleted => "deleted"@,
    }
}

impl Status {
    pub fn as_str(&self) -> (r: &'static str)
        ensures
            r@ == status_name(*self),
    {
        match self {
            Status::Pending => "pending",
            Status::Completed => "completed",
            Status::Deleted => "deleted",
        }
    }

    /// The lower-case name (what `Display` writes).
    pub fn to_string(&self) -> (r: String)
        ensures
            r@ == status_name(*self),
    {
        String::from_str(self.as_str())
    }
}

// ── durations ─────────────────────────────────────────────────────────────

/// `0m` for no time, else `{h}h {m}m` with whole hours and the remaining
/// whole minutes, or just `{m}m` under an hour.
pub open spec fn duration_text(secs: int) -> Seq<char> {
    if secs <= 0 {
        "0m"@
    } else {
        let h = secs / 3600;
        let m = (secs % 3600) / 60;
        if h > 0 {
            nat_digits(h as nat) + "h "@ + nat_digits(m as nat) + "m"@
        } else {
            nat_digits(m as nat) + "m"@
        }
    }
}

pub fn format_duration(secs: i64) -> (r: String)
    ensures
        r@ == duration_text(secs as int),
{
    proof {
        reveal_strlit("0m");
        reveal_strlit("h ");
        reveal_strlit("m");
    }
    if secs <= 0 {
        return String::from_str("0m");
    }
    let h = secs / 3600;
    let m = (secs % 3600) / 60;
    let mut out = String::new();
    if h > 0 {
        out.append(fmt_u64(h as u64).as_str());
        out.append("h ");
    }
    out.append(fmt_u64(m as u64).as_str());
    out.append("m");
    assert(h > 0 ==> out@ =~= nat_digits(h as nat) + "h "@ + nat_digits(m as nat) + "m"@);
    assert(h <= 0 ==> out@ =~= nat_digits(m as nat) + "m"@);
    out
}

// ── calendar months ───────────────────────────────────────────────────────

pub open spec fn leap_year(year: int) -> bool {
    year % 4 == 0 && (year % 100 != 0 || year % 400 == 0)
}

/// Days in `month` (1-based) of `year`; 30 for a month number out of range.
pub open spec fn month_length(year: int, month: int) -> int {
    if month == 1 || month == 3 || month == 5 || month == 7 || month == 8 || month == 10
        || month == 12 {
        31
    } else if month == 4 || month == 6 || month == 9 || month == 11 {
        30
    } else if month == 2 {
        if leap_year(year) {
            29
        } else {
            28
        }
    } else {
        30
    }
}

pub fn days_in_month(year: i32, month: u32) -> (r: u32)
    ensures
        r == month_length(year as int, month as int),
{
    match month {
        1 | 3 | 5 | 7 | 8 | 10 | 12 => 31,
        4 | 6 | 9 | 11 => 30,
        2 => {
            if year % 4 == 0 && (year % 100 != 0 || year % 400 == 0) {
                29
            } else {
                28
            }
        },
        _ => 30,
    }
}

/// The calendar month `months` months after `dt`'s, as
/// `(year, month 1..=12)`.
pub open spec fn target_month(dt: UtcTime, months: u32) -> (int, int) {
    let total = month0_of(dt) + months;
    (year_of(dt) + total / 12, (total % 12) + 1)
}

/// `dt`'s day of the month, clamped to the length of the target month.
pub open spec fn target_day(dt: UtcTime, months: u32) -> int {
    let (y, m) = target_month(dt, months);
    if day_of(dt) <= month_length(y, m) {
        day_of(dt) as int
    } else {
        month_length(y, m)
    }
}

/// chrono's steps from `dt` to the target date: day 1 first (so no step
/// meets a date that does not exist), then the year, the month, and the
/// clamped day; `None` where a step fails.
pub open spec fn month_moved(dt: UtcTime, months: u32) -> Option<UtcTime> {
    let (y, m) = target_month(dt, months);
    match day_set(dt, 1) {
        Some(a) => match year_set(a, y as i32) {
            Some(b) => match month_set(b, m as u32) {
                Some(c) => day_set(c, target_day(dt, months) as u32),
                None => None,
            },
            None => None,
        },
        None => None,
    }
}

/// `dt` moved `months` calendar months on, its day clamped to the target
/// month's length (31 January plus one month is 28 or 29 February); `dt`
/// itself where chrono cannot take a step, and `None` where the month count
/// overflows `u32`.
pub open spec fn months_added(dt: UtcTime, months: u32) -> Option<UtcTime> {
    if month0_of(dt) + months > u32::MAX {
        None
    } else {
        Some(
            match month_moved(dt, months) {
                Some(c) => c,
                None => dt,
            },
        )
    }
}

pub fn add_months(dt: UtcTime, months: u32) -> (r: Option<UtcTime>)
    ensures
        r == months_added(dt, months),
        r is Some ==> (month_moved(dt, months) matches Some(c) ==> year_of(c) == target_month(
            dt,
            months,
        ).0 && month0_of(c) + 1 == target_month(dt, months).1 && day_of(c) == target_day(
            dt,
            months,
        )),
        in_chrono_range(dt) && month0_of(dt) + months <= u32::MAX && MIN_YEAR <= target_month(
            dt,
            months,
        ).0 <= MAX_YEAR ==> month_moved(dt, months) is Some && r == month_moved(dt, months)
            && r->0.nanos == dt.nanos && time_of_day(r->0) == time_of_day(dt),
        r is Some ==> (month_moved(dt, months) matches Some(c) ==> (year_of(c) == year_of(dt) + (
            month0_of(dt) + months) / 12 && month0_of(c) == (month0_of(dt) + months) % 12 && day_of(c)
            == if day_of(dt) <= month_length(
            target_month(dt, months).0,
            target_month(dt, months).1,
        ) {
            day_of(dt) as int
        } else {
            month_length(target_month(dt, months).0, target_month(dt, months).1)
        })),
{
    let m0 = month0(dt);
    let total = match m0.checked_add(months) {
        Some(t) => t,
        None => {
            return None;
        },
    };
    let extra_years = total / 12;
    let new_month = (total % 12) + 1;
    let y = year(dt);
    let new_year: i32 = y + extra_years as i32;
    let max_day = days_in_month(new_year, new_month);
    let d = day(dt);
    let new_day = if d <= max_day {
        d
    } else {
        max_day
    };
    let r = match with_day(dt, 1) {
        Some(a) => match with_year(a, new_year) {
            Some(b) => match with_month(b, new_month) {
                Some(c) => match with_day(c, new_day) {
                    Some(e) => e,
                    None => dt,
                },
                None => dt,
            },
            None => dt,
        },
        None => dt,
    };
    Some(r)
}

// ── recurrence ────────────────────────────────────────────────────────────

/// `N<unit>` with `N` an `i64`.
pub open spec fn count_with_unit(s: Seq<char>, unit: char) -> Option<i64> {
    match strip_suffix_spec(s, seq![unit]) {
        Some(num) => parse_i64_spec(num),
        None => None,
    }
}

/// The date one recurrence `interval` after `base`. The interval is trimmed
/// and lower-cased; `daily`, `weekly`, `monthly`, `yearly`, `Nd`, `Nw`,
/// `Nm` are understood (`N` converted to `u32` by truncation for months) and
/// anything else means one week. `None` where chrono's arithmetic would
/// panic (the date leaving its range) or the month count overflows.
pub open spec fn interval_advance(base: UtcTime, interval: Seq<char>) -> Option<UtcTime> {
    let s = lower_of(trim_spec(interval));
    if s == "daily"@ {
        days_added(base, 1)
    } else if s == "weekly"@ {
        weeks_added(base, 1)
    } else if s == "monthly"@ {
        months_added(base, 1)
    } else if s == "yearly"@ {
        months_added(base, 12)
    } else if count_with_unit(s, 'd') is Some {
        days_added(base, count_with_unit(s, 'd')->0)
    } else if count_with_unit(s, 'w') is Some {
        weeks_added(base, count_with_unit(s, 'w')->0)
    } else if count_with_unit(s, 'm') is Some {
        months_added(base, count_with_unit(s, 'm')->0 as u32)
    } else {
        weeks_added(base, 1)
    }
}

fn count_unit(s: &str, unit: &str) -> (r: Option<i64>)
    requires
        unit@.len() == 1,
    ensures
        r == count_with_unit(s@, unit@[0]),
{
    assert(unit@ =~= seq![unit@[0]]);
    match strip_suffix(s, unit) {
        Some(num) => parse_i64(num),
        None => None,
    }
}

/// Advance `base` by a recurrence interval string.
pub fn advance_by_interval(base: UtcTime, interval: &str) -> (r: Option<UtcTime>)
    ensures
        r == interval_advance(base, interval@),
{
    proof {
        reveal_strlit("daily");
        reveal_strlit("weekly");
        reveal_strlit("monthly");
        reveal_strlit("yearly");
        reveal_strlit("d");
        reveal_strlit("w");
        reveal_strlit("m");
    }
    let lowered = to_lowercase(trim(interval));
    let s = lowered.as_str();
    if str_eq(s, "daily") {
        return add_days(base, 1);
    }
    if str_eq(s, "weekly") {
        return add_weeks(base, 1);
    }
    if str_eq(s, "monthly") {
        return add_months(base, 1);
    }
    if str_eq(s, "yearly") {
        return add_months(base, 12);
    }
    match count_unit(s, "d") {
        Some(n) => {
            return add_days(base, n);
        },
        None => {},
    }
    match count_unit(s, "w") {
        Some(n) => {
            return add_weeks(base, n);
        },
        None => {},
    }
    match count_unit(s, "m") {
        Some(n) => {
            return add_months(base, n as u32);
        },
        None => {},
    }
    add_weeks(base, 1)
}

/// `duration_text(secs)` reads as `h` whole hours and `m` whole minutes of
/// `secs`, rounded down: `{h}h {m}m`, or `{m}m` when `h` is 0.
pub open spec fn reads_as(secs: int, h: nat, m: nat) -> bool {
    &&& m < 60
    &&& 3600 * h + 60 * m <= secs < 3600 * h + 60 * m + 60
    &&& (h > 0 <==> secs >= 3600)
    &&& duration_text(secs) == if h > 0 {
        nat_digits(h) + "h "@ + nat_digits(m) + "m"@
    } else {
        nat_digits(m) + "m"@
    }
}

/// A duration reads as whole hours and minutes, rounded down: `0m` for no
/// time; else `{h}h {m}m`, or `{m}m` under an hour, where `m < 60` and
/// `3600h + 60m <= secs < 3600h + 60m + 60`.
pub proof fn lemma_duration_rounds_down(secs: int)
    ensures
        secs <= 0 ==> duration_text(secs) == "0m"@,
        secs > 0 ==> exists|h: nat, m: nat| #[trigger] reads_as(secs, h, m),
{
    if secs > 0 {
        let h = secs / 3600;
        let m = (secs % 3600) / 60;
        assert(3600 * h + 60 * m <= secs < 3600 * h + 60 * m + 60 && 0 <= m < 60 && h >= 0)
            by (nonlinear_arith)
            requires
                secs > 0,
                h == secs / 3600,
                m == (secs % 3600) / 60,
        ;
        assert(h > 0 <==> secs >= 3600);
        assert(reads_as(secs, h as nat, m as nat));
    }
}

/// Moving a date by whole months keeps its day of the month whenever the
/// target month has that day; only a day past the target month's end is
/// pulled back to its last day (31 January plus one month is the end of
/// February, 15 March plus one month is 15 April).
pub proof fn lemma_month_step_keeps_day(dt: UtcTime, months: u32)
    ensures
        day_of(dt) <= month_length(target_month(dt, months).0, target_month(dt, months).1)
            ==> target_day(dt, months) == day_of(dt),
        day_of(dt) > month_length(target_month(dt, months).0, target_month(dt, months).1)
            ==> target_day(dt, months) == month_length(
            target_month(dt, months).0,
            target_month(dt, months).1,
        ),
        target_day(dt, months) <= day_of(dt),
{
}

} // verus!

verus! {

/// The fields of a task that its editors change: what the detail view and
/// `modify` read and write.
#[derive(Clone, Debug)]
pub struct TaskFields {
    pub description: String,
    pub project: String,
    pub priority: Option<Priority>,
    pub due: Option<UtcTime>,
    pub tags: Vec<String>,
}

impl TaskFields {
    /// A fresh task's fields: no priority, no due date, no tags.
    pub fn new(description: String, project: String) -> (r: TaskFields)
        ensures
            r.description@ == description@,
            r.project@ == project@,
            r.priority is None,
            r.due is None,
            r.tags@.len() == 0,
    {
        TaskFields { description, project, priority: None, due: None, tags: Vec::new() }
    }
}

} // verus!
