//! The task list: the text of its columns and markers.

use vstd::prelude::*;
use crate::db::DepInfo;
use crate::text::{fmt_i64, fmt_u64, int_to_decimal, join, join_spec, nat_digits, owned, truncate_ellipsis, truncate_spec, views};

verus! {

/// Width of the DEPS column in the task list.
pub const DEP_COL_W: usize = 16;

/// `s` cut to `max` chars, the last replaced by `…` when cut.
pub fn truncate(s: &str, max: usize) -> (r: String)
    requires
        max > 0 || s@.len() == 0,
    ensures
        r@ == truncate_spec(s@, max as int),
{
    truncate_ellipsis(s, max)
}

/// The decimal renderings of `ids`.
pub open spec fn decimals(ids: Seq<i64>) -> Seq<Seq<char>> {
    ids.map_values(|i: i64| int_to_decimal(i as int))
}

/// The ids written in decimal and joined by commas.
pub fn fmt_id_list(ids: &Vec<i64>) -> (r: String)
    ensures
        r@ == join_spec(decimals(ids@), ","@),
{
    let mut parts: Vec<String> = Vec::new();
    let mut i: usize = 0;
    assert(ids@.take(0) =~= Seq::<i64>::empty());
    while i < ids.len()
        invariant
            i <= ids@.len(),
            views(parts@) == decimals(ids@.take(i as int)),
        decreases ids@.len() - i,
    {
        let ghost before = views(parts@);
        parts.push(fmt_i64(ids[i]));
        proof {
            assert(ids@.take(i + 1) =~= ids@.take(i as int).push(ids@[i as int]));
            assert(views(parts@) =~= before.push(int_to_decimal(ids@[i as int] as int)));
            assert(decimals(ids@.take(i + 1)) =~= decimals(ids@.take(i as int)).push(
                int_to_decimal(ids@[i as int] as int),
            ));
        }
        i = i + 1;
    }
    assert(ids@.take(ids@.len() as int) =~= ids@);
    join(&parts, ",")
}

/// The DEPS column: what the task waits on, else how many it blocks.
pub open spec fn dep_text(dep: Option<DepInfo>) -> Seq<char> {
    match dep {
        Some(d) => if d.blocked_by@.len() > 0 {
            "blocked by "@ + join_spec(decimals(d.blocked_by@), ","@)
        } else if d.blocking > 0 {
            "blocks "@ + nat_digits(d.blocking as nat) + (if d.blocking == 1 {
                " task"@
            } else {
                " tasks"@
            })
        } else {
            Seq::empty()
        },
        None => Seq::empty(),
    }
}

pub fn dep_column_text(dep: Option<&DepInfo>) -> (r: String)
    ensures
        r@ == dep_text(
            match dep {
                Some(d) => Some(*d),
                None => None,
            },
        ),
{
    match dep {
        Some(d) => {
            if d.is_blocked() {
                let mut s = owned("blocked by ");
                s.append(fmt_id_list(&d.blocked_by).as_str());
                s
            } else if d.blocking > 0 {
                let mut s = owned("blocks ");
                s.append(fmt_u64(d.blocking as u64).as_str());
                if d.blocking == 1 {
                    s.append(" task");
                } else {
                    s.append(" tasks");
                }
                s
            } else {
                String::new()
            }
        },
        None => String::new(),
    }
}

/// The gutter marker: `⊘` for a blocked task, `⛓` for one blocking others.
pub open spec fn dep_mark_text(dep: Option<DepInfo>) -> Seq<char> {
    match dep {
        Some(d) => if d.blocked_by@.len() > 0 {
            "⊘"@
        } else if d.blocking > 0 {
            "⛓"@
        } else {
            " "@
        },
        None => " "@,
    }
}

pub fn dep_mark(dep: Option<&DepInfo>) -> (r: &'static str)
    ensures
        r@ == dep_mark_text(
            match dep {
                Some(d) => Some(*d),
                None => None,
            },
        ),
{
    match dep {
        Some(d) => if d.is_blocked() {
            "⊘"
        } else if d.blocking > 0 {
            "⛓"
        } else {
            " "
        },
        None => " ",
    }
}

/// The plain-text link badge: `[PR] `, else `[link] `, else nothing.
pub fn link_badge(pr: bool, any: bool) -> (r: &'static str)
    ensures
        r@ == (if pr {
            "[PR] "@
        } else if any {
            "[link] "@
        } else {
            ""@
        }),
{
    if pr {
        "[PR] "
    } else if any {
        "[link] "
    } else {
        ""
    }
}

/// How close a due date is, by whole days left.
#[derive(Clone, Copy, Debug, PartialEq, Eq, Structural)]
pub enum DueClass {
    Overdue,
    Soon,
    Later,
}

pub fn due_class(days: i64) -> (r: DueClass)
    ensures
        r == (if days < 0 {
            DueClass::Overdue
        } else if days <= 1 {
            DueClass::Soon
        } else {
            DueClass::Later
        }),
{
    if days < 0 {
        DueClass::Overdue
    } else if days <= 1 {
        DueClass::Soon
    } else {
        DueClass::Later
    }
}

/// The scope named when nothing is listed.
pub open spec fn empty_list_text(filter: Option<Seq<char>>) -> Seq<char> {
    "No pending tasks for "@ + match filter {
        Some(p) => "project '"@ + p + "'"@,
        None => "any project"@,
    } + "."@
}

pub fn empty_list_message(filter: Option<&str>) -> (r: String)
    ensures
        r@ == empty_list_text(
            match filter {
                Some(p) => Some(p@),
                None => None,
            },
        ),
{
    let mut s = owned("No pending tasks for ");
    match filter {
        Some(p) => {
            s.append("project '");
            s.append(p);
            s.append("'");
        },
        None => {
            s.append("any project");
        },
    }
    s.append(".");
    s
}

/// `Showing N task` or `tasks`, then ` for project 'p'` when filtered.
pub open spec fn showing_text(count: nat, filter: Option<Seq<char>>) -> Seq<char> {
    "Showing "@ + nat_digits(count) + (if count == 1 {
        " task"@
    } else {
        " tasks"@
    }) + match filter {
        Some(p) => " for project '"@ + p + "'"@,
        None => Seq::empty(),
    }
}

pub fn list_summary(count: usize, filter: Option<&str>) -> (r: String)
    ensures
        r@ == showing_text(
            count as nat,
            match filter {
                Some(p) => Some(p@),
                None => None,
            },
        ),
{
    let mut s = owned("Showing ");
    s.append(fmt_u64(count as u64).as_str());
    if count == 1 {
        s.append(" task");
    } else {
        s.append(" tasks");
    }
    match filter {
        Some(p) => {
            s.append(" for project '");
            s.append(p);
            s.append("'");
        },
        None => {},
    }
    s
}

} // verus!
