//! `modify`: setting fields from command-line flags.

use vstd::prelude::*;
use crate::config::Config;
use crate::dates::{due_spec, parse_due, UtcTime};
use crate::model::{priority_named, Priority, TaskFields};
use crate::text::{concat3, owned, trim, trim_spec, trimmed_nonblank, upper_of, views};

verus! {

/// The strings of `tags`, trimmed, blank ones dropped.
pub fn clean_tags(tags: &[String]) -> (r: Vec<String>)
    ensures
        views(r@) == trimmed_nonblank(views(tags@)),
{
    let mut out: Vec<String> = Vec::new();
    let mut i: usize = 0;
    assert(views(tags@).take(0) =~= Seq::<Seq<char>>::empty());
    while i < tags.len()
        invariant
            i <= tags@.len(),
            views(out@) == trimmed_nonblank(views(tags@).take(i as int)),
        decreases tags@.len() - i,
    {
        proof {
            assert(views(tags@).take(i + 1).drop_last() =~= views(tags@).take(i as int));
            assert(views(tags@).take(i + 1).last() == tags@[i as int]@);
        }
        let t = trim(tags[i].as_str());
        if t.unicode_len() > 0 {
            let ghost before = views(out@);
            out.push(owned(t));
            assert(views(out@) =~= before.push(t@));
        }
        i = i + 1;
    }
    assert(views(tags@).take(tags@.len() as int) =~= views(tags@));
    out
}

pub open spec fn opt_str(o: Option<&str>) -> Option<Seq<char>> {
    match o {
        Some(s) => Some(s@),
        None => None,
    }
}

/// The error for a priority flag that names no priority.
pub open spec fn bad_priority(p: Seq<char>) -> Seq<char> {
    "Unknown priority: "@ + p + " (expected H, M, or L)"@
}

/// The error for a due flag that reads as no date.
pub open spec fn bad_due(d: Seq<char>) -> Seq<char> {
    "Could not parse due date: "@ + d
}

/// No priority flag, or one that names a priority.
pub open spec fn priority_ok(priority: Option<&str>) -> bool {
    priority is None || priority_named(upper_of(priority->0@)) is Some
}

/// Apply the setter flags of `modify` to a task's fields: a new
/// description, a priority (any case, `H`/`HIGH` …), a due date (or
/// `clear_due`), and a replacement tag list (trimmed, blanks dropped; or
/// `clear_tags`). An unknown priority or an unreadable due date is an
/// error and nothing changes.
pub fn merge_task_fields(
    task: TaskFields,
    cfg: &Config,
    description: Option<&str>,
    priority: Option<&str>,
    due: Option<&str>,
    clear_due: bool,
    tags: &[String],
    clear_tags: bool,
) -> (r: Result<TaskFields, String>)
    ensures
        match r {
            Err(e) => (priority is Some && priority_named(upper_of(priority->0@)) is None && e@
                == bad_priority(priority->0@)) || (priority_ok(priority) && !clear_due && due is Some
                && e@ == bad_due(due->0@) && exists|now: UtcTime, natural: Option<UtcTime>|
                (#[trigger] due_spec(trim_spec(due->0@), now, natural)) is None),
            Ok(t) => {
                &&& priority_ok(priority)
                &&& t.description@ == match description {
                    Some(d) => d@,
                    None => task.description@,
                }
                &&& t.project == task.project
                &&& t.priority == match priority {
                    Some(p) => priority_named(upper_of(p@)),
                    None => task.priority,
                }
                &&& views(t.tags@) == (if clear_tags {
                    Seq::empty()
                } else if tags@.len() > 0 {
                    trimmed_nonblank(views(tags@))
                } else {
                    views(task.tags@)
                })
                &&& clear_due ==> t.due is None
                &&& !clear_due && due is None ==> t.due == task.due
                &&& !clear_due && due is Some ==> (t.due is Some && exists|now: UtcTime, natural: Option<UtcTime>|
                    #[trigger] due_spec(trim_spec(due->0@), now, natural) == t.due)
            },
        },
{
    let mut updated = task;
    match description {
        Some(d) => {
            updated.description = owned(d);
        },
        None => {},
    }
    match priority {
        Some(p) => match Priority::from_name(p) {
            Some(v) => {
                updated.priority = Some(v);
            },
            None => {
                return Err(concat3("Unknown priority: ", p, " (expected H, M, or L)"));
            },
        },
        None => {},
    }
    if clear_tags {
        updated.tags = Vec::new();
    } else if tags.len() > 0 {
        updated.tags = clean_tags(tags);
    }
    if clear_due {
        updated.due = None;
    } else {
        match due {
            Some(d) => match parse_due(d, cfg.date_dialect.as_str()) {
                Some(dt) => {
                    updated.due = Some(dt);
                },
                None => {
                    return Err(crate::text::concat2("Could not parse due date: ", d));
                },
            },
            None => {},
        }
    }
    Ok(updated)
}

} // verus!
