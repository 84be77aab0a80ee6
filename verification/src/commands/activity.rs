//! The activity heatmap: how busy each day was and how long the run of
//! active days is.

use vstd::prelude::*;
use crate::dates::{day_month, month_of_day, parse_day_number, ymd_day_number};
use crate::text::{concat3, owned};
use crate::order::{sort_dedup_i64, strictly_increasing};

verus! {

/// Three-letter English abbreviation of a month, `"???"` outside 1..=12.
pub open spec fn month_abbr_spec(m: u32) -> Seq<char> {
    if m == 1 { "Jan"@ }
    else if m == 2 { "Feb"@ }
    else if m == 3 { "Mar"@ }
    else if m == 4 { "Apr"@ }
    else if m == 5 { "May"@ }
    else if m == 6 { "Jun"@ }
    else if m == 7 { "Jul"@ }
    else if m == 8 { "Aug"@ }
    else if m == 9 { "Sep"@ }
    else if m == 10 { "Oct"@ }
    else if m == 11 { "Nov"@ }
    else if m == 12 { "Dec"@ }
    else { "???"@ }
}

pub fn month_abbr(m: u32) -> (r: &'static str)
    ensures
        r@ == month_abbr_spec(m),
{
    match m {
        1 => "Jan",
        2 => "Feb",
        3 => "Mar",
        4 => "Apr",
        5 => "May",
        6 => "Jun",
        7 => "Jul",
        8 => "Aug",
        9 => "Sep",
        10 => "Oct",
        11 => "Nov",
        12 => "Dec",
        _ => "???",
    }
}


// ── heat levels ───────────────────────────────────────────────────────────

/// The shade of a day with `count` events when the busiest day had `max`:
/// 0 for none, then 1 to 4 for a share of the maximum below a quarter,
/// below a half, below three quarters, and the rest. (The shares are
/// compared exactly, in integers.)
pub open spec fn heat_level_of(count: int, max: int) -> int {
    let m = if max < 1 {
        1
    } else {
        max
    };
    if count == 0 {
        0
    } else if 4 * count < m {
        1
    } else if 2 * count < m {
        2
    } else if 4 * count < 3 * m {
        3
    } else {
        4
    }
}

pub fn heat_level(count: u32, max: u32) -> (r: u8)
    ensures
        r == heat_level_of(count as int, max as int),
{
    let m: u64 = if max < 1 {
        1
    } else {
        max as u64
    };
    let c: u64 = count as u64;
    if c == 0 {
        0
    } else if 4 * c < m {
        1
    } else if 2 * c < m {
        2
    } else if 4 * c < 3 * m {
        3
    } else {
        4
    }
}

/// How many week columns fit in a terminal `width` wide: a 4-column label,
/// a 2-column border, 7 columns per week, at least 4 and at most 52 weeks.
pub fn heatmap_weeks(width: u16) -> (r: i64)
    ensures
        r == (if (if width >= 6 { width - 6 } else { 0 }) / 7 < 4 {
            4
        } else if (if width >= 6 { width - 6 } else { 0 }) / 7 > 52 {
            52
        } else {
            (if width >= 6 { width - 6 } else { 0 }) / 7
        }),
{
    let available: u16 = if width >= 6 {
        width - 6
    } else {
        0
    };
    let weeks = (available / 7) as i64;
    if weeks < 4 {
        4
    } else if weeks > 52 {
        52
    } else {
        weeks
    }
}

// ── streaks ───────────────────────────────────────────────────────────────

/// Length of the run of consecutive days ending at position `i` of the
/// ascending day list `d`.
pub open spec fn run_ending(d: Seq<i64>, i: int) -> nat
    decreases i,
{
    if i <= 0 {
        1
    } else if d[i] - d[i - 1] == 1 {
        run_ending(d, i - 1) + 1
    } else {
        1
    }
}

/// The longest run among the first `k` positions.
pub open spec fn longest_run(d: Seq<i64>, k: int) -> nat
    decreases k,
{
    if k <= 0 {
        0
    } else {
        let before = longest_run(d, k - 1);
        if run_ending(d, k - 1) > before {
            run_ending(d, k - 1)
        } else {
            before
        }
    }
}

/// The current streak: the run ending at the last active day, if that day
/// is today, yesterday or later; else none.
pub open spec fn current_run(d: Seq<i64>, today: int) -> nat {
    if d.len() > 0 && today - d.last() <= 1 {
        run_ending(d, d.len() - 1)
    } else {
        0
    }
}

/// The days (as day numbers) the readable dates of `dates` name.
pub open spec fn day_numbers(dates: Seq<Seq<char>>) -> Seq<i64>
    decreases dates.len(),
{
    if dates.len() == 0 {
        Seq::empty()
    } else {
        match ymd_day_number(dates.last()) {
            Some(n) => day_numbers(dates.drop_last()).push(n),
            None => day_numbers(dates.drop_last()),
        }
    }
}

proof fn lemma_run_bounded(d: Seq<i64>, i: int)
    requires
        0 <= i < d.len(),
    ensures
        1 <= run_ending(d, i) <= i + 1,
    decreases i,
{
    if i > 0 {
        lemma_run_bounded(d, i - 1);
    }
}

proof fn lemma_longest_bounds(d: Seq<i64>, k: int)
    requires
        0 <= k <= d.len(),
    ensures
        longest_run(d, k) <= k,
        forall|i: int| 0 <= i < k ==> run_ending(d, i) <= longest_run(d, k),
    decreases k,
{
    if k > 0 {
        lemma_longest_bounds(d, k - 1);
        lemma_run_bounded(d, k - 1);
    }
}

/// The current and longest streaks of active days: `dates` are the days
/// tasks were completed (`YYYY-MM-DD`; unreadable ones skipped, repeats
/// counted once) and `today` is today's day number.
pub fn activity_streaks(dates: &Vec<String>, today: i64) -> (r: (u32, u32))
    requires
        dates@.len() < u32::MAX,
    ensures
        ({
            let d = day_numbers(crate::text::views(dates@));
            exists|u: Seq<i64>|
                {
                    &&& strictly_increasing(u)
                    &&& u.to_set() == d.to_set()
                    &&& r.0 == current_run(u, today as int)
                    &&& r.1 == longest_run(u, u.len() as int)
                }
        }),
        r.0 <= r.1,
{
    let mut days: Vec<i64> = Vec::new();
    let mut i: usize = 0;
    let ghost dv = crate::text::views(dates@);
    assert(dv.take(0) =~= Seq::<Seq<char>>::empty());
    while i < dates.len()
        invariant
            i <= dates@.len(),
            dv == crate::text::views(dates@),
            days@ == day_numbers(dv.take(i as int)),
            days@.len() <= i,
        decreases dates@.len() - i,
    {
        proof {
            assert(dv.take(i + 1).drop_last() =~= dv.take(i as int));
            assert(dv.take(i + 1).last() == dates@[i as int]@);
        }
        match parse_day_number(dates[i].as_str()) {
            Some(n) => {
                days.push(n);
            },
            None => {},
        }
        i = i + 1;
    }
    assert(dv.take(dates@.len() as int) =~= dv);
    let u = sort_dedup_i64(&days);
    proof {
        assert(u@.len() <= days@.len()) by {
            assert(u@.no_duplicates()) by {
                assert forall|a: int, b: int| 0 <= a < u@.len() && 0 <= b < u@.len() && a != b implies u@[a]
                    != u@[b] by {
                    if a < b {
                        assert(u@[a] < u@[b]);
                    } else {
                        assert(u@[b] < u@[a]);
                    }
                }
            }
            u@.unique_seq_to_set();
            days@.lemma_cardinality_of_set();
        }
    }
    let n = u.len();
    let mut longest: u32 = 0;
    let mut streak: u32 = 0;
    let mut k: usize = 0;
    while k < n
        invariant
            n == u@.len(),
            n < u32::MAX,
            k <= n,
            longest == longest_run(u@, k as int),
            k > 0 ==> streak == run_ending(u@, k - 1),
        decreases n - k,
    {
        proof {
            lemma_run_bounded(u@, k as int);
        }
        if k > 0 && (u[k] as i128) - (u[k - 1] as i128) == 1 {
            streak = streak + 1;
        } else {
            streak = 1;
        }
        if streak > longest {
            longest = streak;
        }
        k = k + 1;
    }
    let current: u32 = if n > 0 && (today as i128) - (u[n - 1] as i128) <= 1 {
        streak
    } else {
        0
    };
    proof {
        lemma_longest_bounds(u@, n as int);
    }
    (current, longest)
}

// ── adding up a day's activity ────────────────────────────────────────────

/// Activity events as `(day text, weight)`: each task created, each task
/// completed and each other recorded change counts once. The rows are
/// `(YYYY-MM-DD, count)` per day, as the store groups them.
pub open spec fn events(
    created: Seq<(String, u32)>,
    completed: Seq<(String, u32)>,
    changes: Seq<(String, u32)>,
) -> Seq<(Seq<char>, int)> {
    weighted(created, 1) + weighted(completed, 1) + weighted(changes, 1)
}

pub open spec fn weighted(rows: Seq<(String, u32)>, w: int) -> Seq<(Seq<char>, int)> {
    rows.map_values(|r: (String, u32)| (r.0@, w * r.1))
}

/// The activity of day `d`: the weights of the events on that day (rows
/// whose date does not read are left out).
pub open spec fn day_total(es: Seq<(Seq<char>, int)>, d: i64) -> int
    decreases es.len(),
{
    if es.len() == 0 {
        0
    } else {
        day_total(es.drop_last(), d) + if ymd_day_number(es.last().0) == Some(d) {
            es.last().1
        } else {
            0
        }
    }
}

pub open spec fn has_day(es: Seq<(Seq<char>, int)>, d: i64) -> bool {
    exists|k: int| 0 <= k < es.len() && ymd_day_number(es[k].0) == Some(d)
}

/// `out` holds one `(day, total)` per day with events, and nothing else.
pub open spec fn tallies(out: Seq<(i64, u64)>, es: Seq<(Seq<char>, int)>) -> bool {
    &&& forall|k: int| 0 <= k < out.len() ==> out[k].1 == day_total(es, out[k].0)
    &&& forall|a: int, b: int| 0 <= a < b < out.len() ==> out[a].0 != out[b].0
    &&& forall|d: i64| has_day(es, d) <==> exists|k: int| 0 <= k < out.len() && out[k].0 == d
}

pub open spec fn weights_ok(es: Seq<(Seq<char>, int)>) -> bool {
    forall|k: int| 0 <= k < es.len() ==> 0 <= #[trigger] es[k].1 <= 2 * u32::MAX
}

proof fn lemma_day_total_bound(es: Seq<(Seq<char>, int)>, d: i64)
    requires
        weights_ok(es),
    ensures
        0 <= day_total(es, d) <= 2 * u32::MAX * es.len(),
    decreases es.len(),
{
    if es.len() > 0 {
        assert(weights_ok(es.drop_last()));
        lemma_day_total_bound(es.drop_last(), d);
        assert(0 <= es[es.len() - 1].1);
    }
}

proof fn lemma_has_day_push(es: Seq<(Seq<char>, int)>, e: (Seq<char>, int), d: i64)
    ensures
        has_day(es.push(e), d) <==> (has_day(es, d) || ymd_day_number(e.0) == Some(d)),
{
    if has_day(es, d) {
        let k = choose|k: int| 0 <= k < es.len() && ymd_day_number(es[k].0) == Some(d);
        assert(es.push(e)[k] == es[k]);
    }
    if ymd_day_number(e.0) == Some(d) {
        assert(es.push(e)[es.len() as int] == e);
    }
    if has_day(es.push(e), d) {
        let k = choose|k: int| 0 <= k < es.len() + 1 && ymd_day_number(es.push(e)[k].0) == Some(d);
        if k < es.len() {
            assert(es.push(e)[k] == es[k]);
        }
    }
}

/// Add the rows, each weighing `w` per event, to the day tallies.
fn tally_rows(out: &mut Vec<(i64, u64)>, rows: &Vec<(String, u32)>, w: u64, Ghost(before): Ghost<Seq<(Seq<char>, int)>>)
    requires
        1 <= w <= 2,
        tallies(old(out)@, before),
        weights_ok(before),
        before.len() + rows@.len() < 0x4000_0000,
    ensures
        tallies(final(out)@, before + weighted(rows@, w as int)),
        weights_ok(before + weighted(rows@, w as int)),
{
    let mut i: usize = 0;
    while i < rows.len()
        invariant
            1 <= w <= 2,
            i <= rows@.len(),
            before.len() + rows@.len() < 0x4000_0000,
            tallies(out@, before + weighted(rows@.take(i as int), w as int)),
            weights_ok(before + weighted(rows@.take(i as int), w as int)),
        decreases rows@.len() - i,
    {
        let ghost es = before + weighted(rows@.take(i as int), w as int);
        let ghost e = (rows@[i as int].0@, w * rows@[i as int].1);
        let ghost es2 = before + weighted(rows@.take(i + 1), w as int);
        proof {
            assert(rows@.take(i + 1) =~= rows@.take(i as int).push(rows@[i as int]));
            assert(weighted(rows@.take(i + 1), w as int) =~= weighted(rows@.take(i as int), w as int).push(e));
            assert(es2 =~= es.push(e));
            assert(es2.drop_last() =~= es);
            assert forall|d: i64| #[trigger] day_total(es2, d) == day_total(es, d) + (if ymd_day_number(e.0) == Some(d) {
                e.1
            } else {
                0
            }) by {}
            assert forall|d: i64| #[trigger] has_day(es2, d) <==> (has_day(es, d) || ymd_day_number(e.0) == Some(d)) by {
                lemma_has_day_push(es, e, d);
            }
            assert(weights_ok(es2)) by {
                assert forall|k: int| 0 <= k < es2.len() implies 0 <= #[trigger] es2[k].1 <= 2 * u32::MAX by {
                    if k < es.len() {
                        assert(es2[k] == es[k]);
                    }
                }
            }
        }
        let add: u64 = w * (rows[i].1 as u64);
        match parse_day_number(rows[i].0.as_str()) {
            None => {
                proof {
                    assert forall|k: int| 0 <= k < out@.len() implies out@[k].1 == day_total(es2, out@[k].0) by {}
                }
            },
            Some(d) => {
                let mut j: usize = 0;
                let mut found = false;
                while j < out.len()
                    invariant
                        j <= out@.len(),
                        !found ==> forall|k: int| 0 <= k < j ==> out@[k].0 != d,
                        found ==> j < out@.len() && out@[j as int].0 == d,
                    ensures
                        !found ==> forall|k: int| 0 <= k < out@.len() ==> out@[k].0 != d,
                        found ==> j < out@.len() && out@[j as int].0 == d,
                    decreases out@.len() - j + (if found { 0int } else { 1int }),
                {
                    if out[j].0 == d {
                        found = true;
                        break;
                    }
                    j = j + 1;
                }
                if found {
                    let old_total = out[j].1;
                    proof {
                        lemma_day_total_bound(es, d);
                        assert(es.len() < 0x4000_0000);
                    }
                    let ghost before_out = out@;
                    out.set(j, (d, old_total + add));
                    proof {
                        assert forall|k: int| 0 <= k < out@.len() implies out@[k].1 == day_total(es2, out@[k].0) by {
                            if k != j {
                                assert(out@[k] == before_out[k]);
                            }
                        }
                        assert forall|dd: i64| has_day(es2, dd) <==> exists|k: int| 0 <= k < out@.len() && out@[k].0 == dd by {
                            if has_day(es2, dd) {
                                if has_day(es, dd) {
                                    let k = choose|k: int| 0 <= k < before_out.len() && before_out[k].0 == dd;
                                    assert(out@[k].0 == dd);
                                } else {
                                    assert(out@[j as int].0 == dd);
                                }
                            }
                            if exists|k: int| 0 <= k < out@.len() && out@[k].0 == dd {
                                let k = choose|k: int| 0 <= k < out@.len() && out@[k].0 == dd;
                                assert(before_out[k].0 == dd);
                            }
                        }
                    }
                } else {
                    let ghost before_out = out@;
                    out.push((d, add));
                    proof {
                        assert(!has_day(es, d));
                        assert(day_total(es, d) == 0) by {
                            lemma_no_day_total(es, d);
                        }
                        assert forall|k: int| 0 <= k < out@.len() implies out@[k].1 == day_total(es2, out@[k].0) by {
                            if k < before_out.len() {
                                assert(out@[k] == before_out[k]);
                            }
                        }
                        assert forall|dd: i64| has_day(es2, dd) <==> exists|k: int| 0 <= k < out@.len() && out@[k].0 == dd by {
                            if has_day(es2, dd) {
                                if has_day(es, dd) {
                                    let k = choose|k: int| 0 <= k < before_out.len() && before_out[k].0 == dd;
                                    assert(out@[k].0 == dd);
                                } else {
                                    assert(out@[before_out.len() as int].0 == dd);
                                }
                            }
                            if exists|k: int| 0 <= k < out@.len() && out@[k].0 == dd {
                                let k = choose|k: int| 0 <= k < out@.len() && out@[k].0 == dd;
                                if k < before_out.len() {
                                    assert(before_out[k].0 == dd);
                                }
                            }
                        }
                    }
                }
            },
        }
        i = i + 1;
    }
    assert(rows@.take(rows@.len() as int) =~= rows@);
}

proof fn lemma_no_day_total(es: Seq<(Seq<char>, int)>, d: i64)
    requires
        !has_day(es, d),
    ensures
        day_total(es, d) == 0,
    decreases es.len(),
{
    if es.len() > 0 {
        let p = es.drop_last();
        assert(!has_day(p, d)) by {
            if has_day(p, d) {
                let k = choose|k: int| 0 <= k < p.len() && ymd_day_number(p[k].0) == Some(d);
                assert(es[k] == p[k]);
            }
        }
        assert(ymd_day_number(es[es.len() - 1].0) != Some(d));
        lemma_no_day_total(p, d);
    }
}

/// The activity of each day that has any: tasks created, tasks completed
/// and other changes, each counting once. One entry per day, in order of
/// first appearance.
pub fn activity_totals(
    created: &Vec<(String, u32)>,
    completed: &Vec<(String, u32)>,
    changes: &Vec<(String, u32)>,
) -> (r: Vec<(i64, u64)>)
    requires
        created@.len() + completed@.len() + changes@.len() < 0x4000_0000,
    ensures
        tallies(r@, events(created@, completed@, changes@)),
{
    let mut out: Vec<(i64, u64)> = Vec::new();
    let ghost e0 = Seq::<(Seq<char>, int)>::empty();
    assert(tallies(out@, e0));
    tally_rows(&mut out, created, 1, Ghost(e0));
    let ghost e1 = e0 + weighted(created@, 1);
    tally_rows(&mut out, completed, 1, Ghost(e1));
    let ghost e2 = e1 + weighted(completed@, 1);
    tally_rows(&mut out, changes, 1, Ghost(e2));
    assert(e2 + weighted(changes@, 1) =~= events(created@, completed@, changes@));
    out
}

// ── the heatmap grid ──────────────────────────────────────────────────────

/// The first day the heatmap shows: the Sunday that opens the first of
/// `weeks` Sunday-to-Saturday weeks, the last of which holds `today`
/// (`since_sunday` days after that week's Sunday).
pub open spec fn grid_start(today: int, since_sunday: int, weeks: int) -> int {
    today - since_sunday - 7 * (weeks - 1)
}

/// The total `totals` gives a day (the last entry for it), 0 when it has
/// none.
pub open spec fn count_on(totals: Seq<(i64, u64)>, d: int) -> int
    decreases totals.len(),
{
    if totals.len() == 0 {
        0
    } else if totals.last().0 == d {
        totals.last().1 as int
    } else {
        count_on(totals.drop_last(), d)
    }
}

/// A count as the heatmap reads it: at most `u32::MAX`.
pub open spec fn capped(n: int) -> int {
    if n > u32::MAX {
        u32::MAX as int
    } else {
        n
    }
}

/// The busiest day's count, at least 1.
pub open spec fn busiest(totals: Seq<(i64, u64)>) -> int
    decreases totals.len(),
{
    if totals.len() == 0 {
        1
    } else {
        let rest = busiest(totals.drop_last());
        let c = capped(totals.last().1 as int);
        if c > rest {
            c
        } else {
            rest
        }
    }
}

/// The scale the heat levels are read against: the busiest day's count.
pub fn heat_max(totals: &Vec<(i64, u64)>) -> (r: u32)
    ensures
        r == busiest(totals@),
{
    let mut best: u32 = 1;
    let mut i: usize = 0;
    assert(totals@.take(0) =~= Seq::<(i64, u64)>::empty());
    while i < totals.len()
        invariant
            i <= totals.len(),
            best == busiest(totals@.take(i as int)),
        decreases totals.len() - i,
    {
        assert(totals@.take(i + 1).drop_last() =~= totals@.take(i as int));
        let n = totals[i].1;
        let c: u32 = if n > 0xffff_ffff {
            0xffff_ffff
        } else {
            n as u32
        };
        if c > best {
            best = c;
        }
        i = i + 1;
    }
    assert(totals@.take(totals.len() as int) =~= totals@);
    best
}

/// The total for day `d`, as `count_on` says.
fn total_on(totals: &Vec<(i64, u64)>, d: i64) -> (r: u64)
    ensures
        r == count_on(totals@, d as int),
{
    let mut found: u64 = 0;
    let mut i: usize = 0;
    assert(totals@.take(0) =~= Seq::<(i64, u64)>::empty());
    while i < totals.len()
        invariant
            i <= totals.len(),
            found == count_on(totals@.take(i as int), d as int),
        decreases totals.len() - i,
    {
        assert(totals@.take(i + 1).drop_last() =~= totals@.take(i as int));
        if totals[i].0 == d {
            found = totals[i].1;
        }
        i = i + 1;
    }
    assert(totals@.take(totals.len() as int) =~= totals@);
    found
}

/// The cell for day `d`: nothing after `today`, else the heat level of the
/// day's count.
pub open spec fn cell_of(totals: Seq<(i64, u64)>, max: u32, today: int, d: int) -> Option<u8> {
    if d > today {
        None
    } else {
        Some(heat_level_of(capped(count_on(totals, d)), max as int) as u8)
    }
}

/// The heatmap's cells: seven rows, one per weekday from Sunday to
/// Saturday, starting at the Sunday `grid_start` names, and `weeks` columns; the cell in row `r` and column
/// `w` is the day `grid_start + 7 * w + r`.
pub fn heatmap_rows(totals: &Vec<(i64, u64)>, max: u32, today: i32, since_sunday: u32, weeks: u32) -> (r:
    Vec<Vec<Option<u8>>>)
    ensures
        r@.len() == 7,
        forall|row: int|
            0 <= row < 7 ==> (#[trigger] r@[row])@.len() == weeks && forall|w: int|
                0 <= w < weeks ==> #[trigger] r@[row]@[w] == cell_of(
                    totals@,
                    max,
                    today as int,
                    grid_start(today as int, since_sunday as int, weeks as int) + 7 * w + row,
                ),
{
    let start: i64 = today as i64 - since_sunday as i64 - 7 * (weeks as i64) + 7;
    let mut rows: Vec<Vec<Option<u8>>> = Vec::new();
    let mut row: usize = 0;
    while row < 7
        invariant
            row <= 7,
            start == grid_start(today as int, since_sunday as int, weeks as int),
            rows@.len() == row,
            forall|k: int|
                0 <= k < row ==> (#[trigger] rows@[k])@.len() == weeks && forall|w: int|
                    0 <= w < weeks ==> #[trigger] rows@[k]@[w] == cell_of(
                        totals@,
                        max,
                        today as int,
                        start + 7 * w + k,
                    ),
        decreases 7 - row,
    {
        let mut cells: Vec<Option<u8>> = Vec::new();
        let mut w: u32 = 0;
        while w < weeks
            invariant
                row < 7,
                w <= weeks,
                start == grid_start(today as int, since_sunday as int, weeks as int),
                cells@.len() == w,
                forall|j: int|
                    0 <= j < w ==> #[trigger] cells@[j] == cell_of(
                        totals@,
                        max,
                        today as int,
                        start + 7 * j + row,
                    ),
            decreases weeks - w,
        {
            let d: i64 = start + 7 * (w as i64) + row as i64;
            if d > today as i64 {
                cells.push(None);
            } else {
                let n = total_on(totals, d);
                let c: u32 = if n > 0xffff_ffff {
                    0xffff_ffff
                } else {
                    n as u32
                };
                cells.push(Some(heat_level(c, max)));
            }
            w = w + 1;
        }
        rows.push(cells);
        row = row + 1;
    }
    rows
}

/// The month a day number falls in, where chrono has that date.
pub open spec fn month_at(d: int) -> Option<u32> {
    if i32::MIN <= d <= i32::MAX {
        day_month(d as i32)
    } else {
        None
    }
}

/// `month_at`, computed.
fn month_at_day(d: i64) -> (r: Option<u32>)
    ensures
        r == month_at(d as int),
{
    if -0x8000_0000 <= d && d <= 0x7fff_ffff {
        month_of_day(d as i32)
    } else {
        None
    }
}

/// The month shown over column `w`: the month of the column's first day,
/// when it differs from the previous column's.
pub open spec fn month_label(today: int, since_sunday: int, weeks: int, w: int) -> Option<u32> {
    let start = grid_start(today, since_sunday, weeks);
    match month_at(start + 7 * w) {
        Some(m) => if w > 0 && month_at(start + 7 * (w - 1)) == Some(m) {
            None
        } else {
            Some(m)
        },
        None => None,
    }
}

/// The months written over the heatmap's columns.
pub fn heatmap_months(today: i32, since_sunday: u32, weeks: u32) -> (r: Vec<Option<u32>>)
    ensures
        r@.len() == weeks,
        forall|w: int|
            0 <= w < weeks ==> #[trigger] r@[w] == month_label(
                today as int,
                since_sunday as int,
                weeks as int,
                w,
            ),
{
    let start: i64 = today as i64 - since_sunday as i64 - 7 * (weeks as i64) + 7;
    let mut out: Vec<Option<u32>> = Vec::new();
    let mut prev: Option<u32> = None;
    let mut w: u32 = 0;
    while w < weeks
        invariant
            w <= weeks,
            start == grid_start(today as int, since_sunday as int, weeks as int),
            out@.len() == w,
            w > 0 ==> prev == month_at(start + 7 * (w - 1)),
            forall|j: int|
                0 <= j < w ==> #[trigger] out@[j] == month_label(
                    today as int,
                    since_sunday as int,
                    weeks as int,
                    j,
                ),
        decreases weeks - w,
    {
        let m = month_at_day(start + 7 * (w as i64));
        let label = match m {
            Some(x) => if w > 0 && prev == Some(x) {
                None
            } else {
                Some(x)
            },
            None => None,
        };
        out.push(label);
        prev = m;
        w = w + 1;
    }
    out
}

/// The legend's cells: the heat levels of 0, 1, 3 and 6 and of the
/// busiest count.
pub fn legend_levels(max: u32) -> (r: Vec<u8>)
    ensures
        r@ == seq![
            heat_level_of(0, max as int) as u8,
            heat_level_of(1, max as int) as u8,
            heat_level_of(3, max as int) as u8,
            heat_level_of(6, max as int) as u8,
            heat_level_of(max as int, max as int) as u8,
        ],
{
    let mut r: Vec<u8> = Vec::new();
    r.push(heat_level(0, max));
    r.push(heat_level(1, max));
    r.push(heat_level(3, max));
    r.push(heat_level(6, max));
    r.push(heat_level(max, max));
    r
}

/// The label before a heatmap row: the weekday's abbreviation on the
/// Monday, Wednesday and Friday rows, blank on the others.
pub fn weekday_label(row: usize) -> (r: &'static str)
    ensures
        r@ == (if row == 1 {
            "Mon"@
        } else if row == 3 {
            "Wed"@
        } else if row == 5 {
            "Fri"@
        } else {
            "   "@
        }),
{
    if row == 1 {
        "Mon"
    } else if row == 3 {
        "Wed"
    } else if row == 5 {
        "Fri"
    } else {
        "   "
    }
}

/// The heatmap's title: the project, or all projects.
pub fn activity_title(project: Option<&str>) -> (r: String)
    ensures
        r@ == match project {
            Some(p) => " Activity — "@ + p@ + " "@,
            None => " Activity — all projects "@,
        },
{
    match project {
        Some(p) => concat3(" Activity — ", p, " "),
        None => owned(" Activity — all projects "),
    }
}

} // verus!
