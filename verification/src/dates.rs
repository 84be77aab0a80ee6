//! Points in time and the human-friendly due-date grammar.
//!
//! A point in time is held as a UTC timestamp ([`UtcTime`]); the calendar
//! arithmetic itself is chrono's, reached through the wrappers below, while
//! the rules on top of it (an ISO due date ends at 23:59:59 UTC of its day,
//! the relative offsets, the order in which readings are tried) are here.

use vstd::prelude::*;
use crate::model::month_length;
use crate::text::{
    eq_ignore_ascii_case, eq_ignore_ascii_case_spec, parse_i64, parse_i64_spec, strip_prefix,
    strip_prefix_spec, strip_suffix, strip_suffix_spec, trim, trim_spec,
};

verus! {

/// A UTC instant: whole seconds since the Unix epoch and the nanoseconds
/// past that second (what `DateTime<Utc>::timestamp` and
/// `timestamp_subsec_nanos` read).
#[derive(Clone, Copy, Debug, PartialEq, Eq, Structural)]
pub struct UtcTime {
    pub secs: i64,
    pub nanos: u32,
}

// ── names for what chrono computes ────────────────────────────────────────

/// The earliest year chrono represents (`NaiveDate::MIN`, 1 January).
pub const MIN_YEAR: i32 = -262143;

/// The latest year chrono represents (`NaiveDate::MAX`, 31 December).
pub const MAX_YEAR: i32 = 262142;

/// `DateTime::<Utc>::MIN_UTC` as a timestamp: 00:00:00 on 1 January of
/// [`MIN_YEAR`].
pub const MIN_TIMESTAMP: i64 = -8_334_601_315_200;

/// The whole seconds of `DateTime::<Utc>::MAX_UTC`: 23:59:59 on 31 December
/// of [`MAX_YEAR`].
pub const MAX_TIMESTAMP: i64 = 8_210_266_876_799;

/// An instant chrono holds as an ordinary (not leap) second:
/// `DateTime::from_timestamp` accepts it and no step lands outside the range.
pub open spec fn in_chrono_range(t: UtcTime) -> bool {
    t.nanos < 1_000_000_000 && MIN_TIMESTAMP <= t.secs <= MAX_TIMESTAMP
}

/// Seconds since midnight UTC of the instant.
pub open spec fn time_of_day(t: UtcTime) -> int {
    (t.secs as int) % 86_400
}

/// 23:59:59 UTC on the day `n` days into the common era (day 1 is
/// 0001-01-01, so the Unix epoch is day 719 163).
pub open spec fn day_end(n: int) -> UtcTime {
    UtcTime { secs: ((n - 719_163) * 86_400 + 86_399) as i64, nanos: 0 }
}

/// An ISO `YYYY-MM-DD` due date means the end of that day, UTC; `None`
/// where chrono does not read the text as a date.
pub open spec fn iso_date_end(s: Seq<char>) -> Option<UtcTime> {
    match ymd_day_number(s) {
        Some(n) => Some(day_end(n as int)),
        None => None,
    }
}

/// What `t + TimeDelta::days(n)` gives, or `None` where chrono panics (the
/// delta or the sum out of range).
pub uninterp spec fn days_added(t: UtcTime, n: i64) -> Option<UtcTime>;

/// What `t + TimeDelta::weeks(n)` gives, or `None` where chrono panics.
pub uninterp spec fn weeks_added(t: UtcTime, n: i64) -> Option<UtcTime>;

/// `Datelike::year` of the instant.
pub uninterp spec fn year_of(t: UtcTime) -> i32;

/// `Datelike::month0` of the instant (0 for January).
pub uninterp spec fn month0_of(t: UtcTime) -> u32;

/// `Datelike::day` of the instant.
pub uninterp spec fn day_of(t: UtcTime) -> u32;

/// `Datelike::with_year`: the same month, day and time in another year.
pub uninterp spec fn year_set(t: UtcTime, y: i32) -> Option<UtcTime>;

/// `Datelike::with_month`: the same day and time in another month.
pub uninterp spec fn month_set(t: UtcTime, m: u32) -> Option<UtcTime>;

/// `Datelike::with_day`: the same time on another day of the month.
pub uninterp spec fn day_set(t: UtcTime, d: u32) -> Option<UtcTime>;

/// `NaiveDate::parse_from_str(s, "%Y-%m-%d")` as days since 1 January of
/// year 1 (`num_days_from_ce`).
pub uninterp spec fn ymd_day_number(s: Seq<char>) -> Option<i64>;

// ── wrappers ──────────────────────────────────────────────────────────────

/// `Utc::now()`. Nothing is stated of the reading.
#[verifier::external_body]
pub(crate) fn utc_now() -> (t: UtcTime) {
    let now = chrono::Utc::now();
    UtcTime { secs: now.timestamp(), nanos: now.timestamp_subsec_nanos() }
}

/// `interim::parse_date_string` on `s` relative to `chrono::Local::now()`,
/// converted to UTC. The result depends on the clock and the machine's time
/// zone, so nothing is stated of it. No text makes it panic: interim's
/// lexer reads a number as at most four digits (`[0-9]{1,4}` on
/// `Tokens::Number`), so a relative amount is at most 9999 units and its
/// `i32` product with a unit (at most 3600 seconds, 7 days or 12 months)
/// stays under 36 million; the date steps are chrono's checked ones.
#[verifier::external_body]
fn natural_date(s: &str, us_dialect: bool) -> (r: Option<UtcTime>) {
    let dialect = if us_dialect { interim::Dialect::Us } else { interim::Dialect::Uk };
    match interim::parse_date_string(s, chrono::Local::now(), dialect) {
        Ok(dt) => Some(UtcTime { secs: dt.timestamp(), nanos: dt.timestamp_subsec_nanos() }),
        Err(_) => None,
    }
}

/// `TimeDelta::try_days(n)` added with `checked_add_signed`: `None` exactly
/// where `t + TimeDelta::days(n)` panics.
#[verifier::external_body]
pub(crate) fn add_days(t: UtcTime, n: i64) -> (r: Option<UtcTime>)
    ensures
        r == days_added(t, n),
{
    chrono::DateTime::from_timestamp(t.secs, t.nanos)
        .and_then(|dt| chrono::TimeDelta::try_days(n).and_then(|d| dt.checked_add_signed(d)))
        .map(|dt| UtcTime { secs: dt.timestamp(), nanos: dt.timestamp_subsec_nanos() })
}

/// `TimeDelta::try_weeks(n)` added with `checked_add_signed`: `None` exactly
/// where `t + TimeDelta::weeks(n)` panics.
#[verifier::external_body]
pub(crate) fn add_weeks(t: UtcTime, n: i64) -> (r: Option<UtcTime>)
    ensures
        r == weeks_added(t, n),
{
    chrono::DateTime::from_timestamp(t.secs, t.nanos)
        .and_then(|dt| chrono::TimeDelta::try_weeks(n).and_then(|d| dt.checked_add_signed(d)))
        .map(|dt| UtcTime { secs: dt.timestamp(), nanos: dt.timestamp_subsec_nanos() })
}

/// `Datelike::year`; chrono stores the year in the top 19 bits of an `i32`,
/// so it lies in `-262144..=262143`, and within [`MIN_YEAR`]`..=`[`MAX_YEAR`]
/// for an instant that `DateTime::from_timestamp` accepts.
#[verifier::external_body]
pub(crate) fn year(t: UtcTime) -> (r: i32)
    ensures
        r == year_of(t),
        -262144 <= r <= 262143,
        in_chrono_range(t) ==> MIN_YEAR <= r <= MAX_YEAR,
{
    chrono::Datelike::year(&chrono::DateTime::from_timestamp(t.secs, t.nanos).unwrap_or_default())
}

/// `Datelike::month0`, which chrono documents as lying in `0..=11`.
#[verifier::external_body]
pub(crate) fn month0(t: UtcTime) -> (r: u32)
    ensures
        r == month0_of(t),
        r < 12,
{
    chrono::Datelike::month0(&chrono::DateTime::from_timestamp(t.secs, t.nanos).unwrap_or_default())
}

/// `Datelike::day`, which chrono documents as lying in `1..=31`.
#[verifier::external_body]
pub(crate) fn day(t: UtcTime) -> (r: u32)
    ensures
        r == day_of(t),
        1 <= r <= 31,
{
    chrono::Datelike::day(&chrono::DateTime::from_timestamp(t.secs, t.nanos).unwrap_or_default())
}

/// `Datelike::with_year`, which chrono documents as changing the year
/// "while keeping the same month and day"; the time of day is kept
/// (`NaiveDateTime::with_year` replaces the date only). For an instant in
/// chrono's range, `None` only where the date does not exist in that year
/// or the year leaves chrono's range.
#[verifier::external_body]
pub(crate) fn with_year(t: UtcTime, y: i32) -> (r: Option<UtcTime>)
    ensures
        r == year_set(t, y),
        r matches Some(c) ==> year_of(c) == y && month0_of(c) == month0_of(t) && day_of(c)
            == day_of(t),
        r matches Some(c) ==> c.nanos == t.nanos && time_of_day(c) == time_of_day(t)
            && MIN_TIMESTAMP <= c.secs <= MAX_TIMESTAMP,
        in_chrono_range(t) && MIN_YEAR <= y <= MAX_YEAR && day_of(t) <= month_length(
            y as int,
            month0_of(t) + 1,
        ) ==> r is Some,
{
    chrono::DateTime::from_timestamp(t.secs, t.nanos).and_then(|dt| chrono::Datelike::with_year(&dt, y)).map(
        |dt| UtcTime { secs: dt.timestamp(), nanos: dt.timestamp_subsec_nanos() },
    )
}

/// `Datelike::with_month`: the same year, day and time of day in month `m`
/// (1-based); for an instant in chrono's range, `None` only where `m` is no
/// month or the day does not exist in that month.
#[verifier::external_body]
pub(crate) fn with_month(t: UtcTime, m: u32) -> (r: Option<UtcTime>)
    ensures
        r == month_set(t, m),
        r matches Some(c) ==> year_of(c) == year_of(t) && month0_of(c) + 1 == m && day_of(c)
            == day_of(t),
        r matches Some(c) ==> c.nanos == t.nanos && time_of_day(c) == time_of_day(t)
            && MIN_TIMESTAMP <= c.secs <= MAX_TIMESTAMP,
        in_chrono_range(t) && 1 <= m <= 12 && day_of(t) <= month_length(year_of(t) as int, m as int)
            ==> r is Some,
{
    chrono::DateTime::from_timestamp(t.secs, t.nanos).and_then(|dt| chrono::Datelike::with_month(&dt, m)).map(
        |dt| UtcTime { secs: dt.timestamp(), nanos: dt.timestamp_subsec_nanos() },
    )
}

/// `Datelike::with_day`: the same year, month and time of day on day `d`;
/// for an instant in chrono's range, `None` only where the month has no such
/// day.
#[verifier::external_body]
pub(crate) fn with_day(t: UtcTime, d: u32) -> (r: Option<UtcTime>)
    ensures
        r == day_set(t, d),
        r matches Some(c) ==> year_of(c) == year_of(t) && month0_of(c) == month0_of(t) && day_of(c)
            == d,
        r matches Some(c) ==> c.nanos == t.nanos && time_of_day(c) == time_of_day(t)
            && MIN_TIMESTAMP <= c.secs <= MAX_TIMESTAMP,
        in_chrono_range(t) && 1 <= d <= month_length(year_of(t) as int, month0_of(t) + 1) ==> r is Some,
{
    chrono::DateTime::from_timestamp(t.secs, t.nanos).and_then(|dt| chrono::Datelike::with_day(&dt, d)).map(
        |dt| UtcTime { secs: dt.timestamp(), nanos: dt.timestamp_subsec_nanos() },
    )
}

/// What `NaiveDate::from_num_days_from_ce_opt(n)` gives, read with
/// `Datelike::month`.
pub uninterp spec fn day_month(n: i32) -> Option<u32>;

/// The month of the date `n` days into the common era (day 1 is
/// 0001-01-01): `NaiveDate::from_num_days_from_ce_opt(n)` and then
/// `Datelike::month`, which chrono documents as lying in `1..=12`; `None`
/// where chrono has no such date.
#[verifier::external_body]
pub(crate) fn month_of_day(n: i32) -> (r: Option<u32>)
    ensures
        r == day_month(n),
        r matches Some(m) ==> 1 <= m <= 12,
{
    chrono::NaiveDate::from_num_days_from_ce_opt(n).map(|d| chrono::Datelike::month(&d))
}

/// `NaiveDate::parse_from_str(s, "%Y-%m-%d")`, as `num_days_from_ce`
/// (an `i32`).
#[verifier::external_body]
pub(crate) fn parse_day_number(s: &str) -> (r: Option<i64>)
    ensures
        r == ymd_day_number(s@),
        r matches Some(n) ==> i32::MIN <= n <= i32::MAX,
{
    chrono::NaiveDate::parse_from_str(s, "%Y-%m-%d").ok().map(
        |d| chrono::Datelike::num_days_from_ce(&d) as i64,
    )
}

/// The instant as a local `YYYY-MM-DD` date (`with_timezone(&Local)` then
/// `format("%Y-%m-%d")`). It depends on the machine's time zone, so nothing
/// is stated of it.
#[verifier::external_body]
pub(crate) fn local_date_string(t: UtcTime) -> (r: String) {
    chrono::DateTime::from_timestamp(t.secs, t.nanos)
        .map(|dt| dt.with_timezone(&chrono::Local).format("%Y-%m-%d").to_string())
        .unwrap_or_default()
}

// ── the due-date grammar ──────────────────────────────────────────────────

/// Preset due values cycled with ←/→ in the review form's Due field.
pub open spec fn due_presets() -> Seq<Seq<char>> {
    seq![
        ""@,
        "today"@,
        "tomorrow"@,
        "+2d"@,
        "+3d"@,
        "+1w"@,
        "+2w"@,
        "next monday"@,
        "next friday"@,
    ]
}

/// How many due presets there are.
pub const DUE_PRESET_COUNT: usize = 9;

/// The `i`-th due preset.
pub fn due_preset(i: usize) -> (r: &'static str)
    requires
        i < DUE_PRESET_COUNT,
    ensures
        r@ == due_presets()[i as int],
{
    proof {
        reveal_strlit("");
        reveal_strlit("today");
        reveal_strlit("tomorrow");
        reveal_strlit("+2d");
        reveal_strlit("+3d");
        reveal_strlit("+1w");
        reveal_strlit("+2w");
        reveal_strlit("next monday");
        reveal_strlit("next friday");
    }
    match i {
        0 => "",
        1 => "today",
        2 => "tomorrow",
        3 => "+2d",
        4 => "+3d",
        5 => "+1w",
        6 => "+2w",
        7 => "next monday",
        _ => "next friday",
    }
}

/// `+N<unit>` with `N` an `i64` (surrounding whitespace inside allowed).
pub open spec fn relative_amount(t: Seq<char>, unit: char) -> Option<i64> {
    match strip_prefix_spec(t, seq!['+']) {
        Some(rest) => match strip_suffix_spec(rest, seq![unit]) {
            Some(num) => parse_i64_spec(trim_spec(num)),
            None => None,
        },
        None => None,
    }
}

/// What a trimmed due string denotes, given the clock reading `now` and what
/// the natural-language reader made of it. `None` also stands where the
/// relative offset leaves chrono's range (there the reading panics).
pub open spec fn due_spec(t: Seq<char>, now: UtcTime, natural: Option<UtcTime>) -> Option<UtcTime> {
    if t.len() == 0 {
        None
    } else if iso_date_end(t) is Some {
        iso_date_end(t)
    } else if eq_ignore_ascii_case_spec(t, "today"@) {
        Some(now)
    } else if relative_amount(t, 'd') is Some {
        days_added(now, relative_amount(t, 'd')->0)
    } else if relative_amount(t, 'w') is Some {
        weeks_added(now, relative_amount(t, 'w')->0)
    } else {
        natural
    }
}

/// 23:59:59 UTC on day `n` of the common era.
fn day_end_at(n: i64) -> (r: UtcTime)
    requires
        i32::MIN <= n <= i32::MAX,
    ensures
        r == day_end(n as int),
{
    UtcTime { secs: (n - 719_163) * 86_400 + 86_399, nanos: 0 }
}

fn relative(t: &str, unit: &str) -> (r: Option<i64>)
    requires
        unit@.len() == 1,
    ensures
        r == relative_amount(t@, unit@[0]),
{
    proof {
        reveal_strlit("+");
        assert("+"@ =~= seq!['+']);
        assert(unit@ =~= seq![unit@[0]]);
    }
    match strip_prefix(t, "+") {
        Some(rest) => match strip_suffix(rest, unit) {
            Some(num) => parse_i64(trim(num)),
            None => None,
        },
        None => None,
    }
}

/// The due date a trimmed string `t` denotes at clock reading `now`, with
/// `natural` standing for the natural-language reading of `t`.
pub fn due_at(t: &str, now: UtcTime, natural: Option<UtcTime>) -> (r: Option<UtcTime>)
    ensures
        r == due_spec(t@, now, natural),
{
    proof {
        reveal_strlit("today");
        reveal_strlit("d");
        reveal_strlit("w");
    }
    if t.unicode_len() == 0 {
        return None;
    }
    match parse_day_number(t) {
        Some(n) => {
            return Some(day_end_at(n));
        },
        None => {},
    }
    if eq_ignore_ascii_case(t, "today") {
        return Some(now);
    }
    match relative(t, "d") {
        Some(n) => {
            return add_days(now, n);
        },
        None => {},
    }
    match relative(t, "w") {
        Some(n) => add_weeks(now, n),
        None => natural,
    }
}

/// Parse a human-friendly due string: an ISO date (end of that day, UTC),
/// `today`, `+Nd` / `+Nw` from now, or natural language read in `dialect`
/// (`"us"`, else UK). The result is `due_spec` of the trimmed text for some
/// clock reading and some natural-language reading.
pub fn parse_due(s: &str, dialect: &str) -> (r: Option<UtcTime>)
    ensures
        exists|now: UtcTime, natural: Option<UtcTime>| r == #[trigger] due_spec(trim_spec(s@), now, natural),
        trim_spec(s@).len() == 0 ==> r is None,
        trim_spec(s@).len() > 0 && iso_date_end(trim_spec(s@)) is Some ==> r == iso_date_end(
            trim_spec(s@),
        ),
{
    proof {
        reveal_strlit("us");
    }
    let t = trim(s);
    let now = utc_now();
    let natural = if t.unicode_len() == 0 {
        None
    } else {
        natural_date(t, crate::text::str_eq(dialect, "us"))
    };
    let r = due_at(t, now, natural);
    assert(r == due_spec(trim_spec(s@), now, natural));
    r
}

/// True if the string is empty after trimming or parses as a due date.
pub fn is_valid_due(s: &str) -> (r: bool)
    ensures
        trim_spec(s@).len() == 0 ==> r,
        iso_date_end(trim_spec(s@)) is Some ==> r,
        r ==> trim_spec(s@).len() == 0 || exists|now: UtcTime, natural: Option<UtcTime>|
            (#[trigger] due_spec(trim_spec(s@), now, natural)) is Some,
{
    let t = trim(s);
    t.unicode_len() == 0 || parse_due(s, "uk").is_some()
}

} // verus!
