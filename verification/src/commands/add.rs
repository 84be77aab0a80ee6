//! `add`: what a new task starts out as, from the words typed, the flags
//! and the model's suggestions, and what the review form's answer makes of
//! it.

use vstd::prelude::*;
use crate::dates::{due_spec, parse_due, UtcTime};
use crate::db::opt_view;
use crate::llm::EnrichmentResponse;
use crate::model::{priority_named, Priority, TaskFields};
use crate::project::ParsedTokens;
use crate::text::{
    join, join_spec, owned, pieces, split_trimmed, str_eq, to_uppercase, trim_spec, trimmed_nonblank,
    upper_of, views,
};
use crate::tui::review_form::FormInput;

verus! {

fn copy_opt(o: &Option<String>) -> (r: Option<String>)
    ensures
        opt_view(r) == opt_view(*o),
{
    match o {
        Some(s) => Some(owned(s.as_str())),
        None => None,
    }
}

fn copy_all(v: &[String]) -> (r: Vec<String>)
    ensures
        views(r@) == views(v@),
{
    let mut out: Vec<String> = Vec::new();
    let mut i: usize = 0;
    while i < v.len()
        invariant
            i <= v@.len(),
            views(out@) == views(v@.take(i as int)),
        decreases v@.len() - i,
    {
        let ghost before = views(out@);
        out.push(owned(v[i].as_str()));
        assert(v@.take(i + 1) =~= v@.take(i as int).push(v@[i as int]));
        assert(views(out@) =~= before.push(v@[i as int]@));
        assert(views(v@.take(i + 1)) =~= views(v@.take(i as int)).push(v@[i as int]@));
        i = i + 1;
    }
    assert(v@.take(v@.len() as int) =~= v@);
    out
}

/// The flags win over the inline tokens: the project and recurrence they
/// name replace the tokens', the priority is upper-cased, and the flag tags
/// follow the token tags.
pub fn apply_overrides(
    parsed: &ParsedTokens,
    project: Option<&str>,
    priority: Option<&str>,
    extra_tags: &[String],
    recur: Option<&str>,
) -> (r: ParsedTokens)
    ensures
        r.description@ == parsed.description@,
        opt_view(r.project) == match project {
            Some(p) => Some(p@),
            None => opt_view(parsed.project),
        },
        opt_view(r.priority) == match priority {
            Some(p) => Some(upper_of(p@)),
            None => opt_view(parsed.priority),
        },
        views(r.tags@) == views(parsed.tags@) + views(extra_tags@),
        opt_view(r.recur) == match recur {
            Some(x) => Some(x@),
            None => opt_view(parsed.recur),
        },
{
    let mut tags = copy_all(parsed.tags.as_slice());
    let more = copy_all(extra_tags);
    let ghost (a, b) = (tags@, more@);
    let mut more = more;
    tags.append(&mut more);
    assert(views(tags@) =~= views(a) + views(b));
    ParsedTokens {
        description: owned(parsed.description.as_str()),
        project: match project {
            Some(p) => Some(owned(p)),
            None => copy_opt(&parsed.project),
        },
        priority: match priority {
            Some(p) => Some(to_uppercase(p)),
            None => copy_opt(&parsed.priority),
        },
        tags,
        recur: match recur {
            Some(x) => Some(owned(x)),
            None => copy_opt(&parsed.recur),
        },
    }
}

/// `base` followed by each of `extra` not already among them.
pub open spec fn merged(base: Seq<Seq<char>>, extra: Seq<Seq<char>>) -> Seq<Seq<char>>
    decreases extra.len(),
{
    if extra.len() == 0 {
        base
    } else {
        let m = merged(base, extra.drop_last());
        if m.contains(extra.last()) {
            m
        } else {
            m.push(extra.last())
        }
    }
}

fn holds(v: &Vec<String>, s: &str) -> (r: bool)
    ensures
        r == views(v@).contains(s@),
{
    let mut i: usize = 0;
    while i < v.len()
        invariant
            i <= v@.len(),
            forall|k: int| 0 <= k < i ==> v@[k]@ != s@,
        decreases v@.len() - i,
    {
        if str_eq(v[i].as_str(), s) {
            assert(views(v@)[i as int] == s@);
            return true;
        }
        i = i + 1;
    }
    proof {
        if views(v@).contains(s@) {
            let k = choose|k: int| 0 <= k < views(v@).len() && views(v@)[k] == s@;
            assert(v@[k]@ == s@);
        }
    }
    false
}

/// The tags a new task starts with: its own, then the suggested ones it
/// does not have yet.
pub fn merged_tags(base: &Vec<String>, extra: &Vec<String>) -> (r: Vec<String>)
    ensures
        views(r@) == merged(views(base@), views(extra@)),
{
    let mut out = copy_all(base.as_slice());
    let mut i: usize = 0;
    while i < extra.len()
        invariant
            i <= extra@.len(),
            views(out@) == merged(views(base@), views(extra@).take(i as int)),
        decreases extra@.len() - i,
    {
        proof {
            assert(views(extra@).take(i + 1).drop_last() =~= views(extra@).take(i as int));
            assert(views(extra@).take(i + 1).last() == extra@[i as int]@);
        }
        if !holds(&out, extra[i].as_str()) {
            let ghost before = views(out@);
            out.push(owned(extra[i].as_str()));
            assert(views(out@) =~= before.push(extra@[i as int]@));
        }
        i = i + 1;
    }
    assert(views(extra@).take(extra@.len() as int) =~= views(extra@));
    out
}

/// The priority a name denotes (any case), if it names one.
pub open spec fn named(o: Option<Seq<char>>) -> Option<Priority> {
    match o {
        Some(p) => priority_named(upper_of(p)),
        None => None,
    }
}

fn priority_from(o: &Option<String>) -> (r: Option<Priority>)
    ensures
        r == named(opt_view(*o)),
{
    match o {
        Some(p) => Priority::from_name(p.as_str()),
        None => None,
    }
}

/// The review form as `add` opens it: the description and project, the
/// suggested priority (else the one typed), the suggested due date, the
/// typed tags followed by the new suggested ones (comma-joined), nothing
/// selected.
pub fn initial_form(parsed: &ParsedTokens, project: &str, suggestion: &Option<EnrichmentResponse>) -> (r:
    FormInput)
    ensures
        r.description@ == parsed.description@,
        r.project@ == project@,
        r.priority == match suggestion {
            Some(e) => match named(opt_view(e.priority)) {
                Some(p) => Some(p),
                None => named(opt_view(parsed.priority)),
            },
            None => named(opt_view(parsed.priority)),
        },
        r.due@ == match suggestion {
            Some(e) => match e.due {
                Some(d) => d@,
                None => Seq::empty(),
            },
            None => Seq::empty(),
        },
        r.tags@ == join_spec(
            match suggestion {
                Some(e) => merged(views(parsed.tags@), views(e.tags@)),
                None => views(parsed.tags@),
            },
            ","@,
        ),
        r.selected_deps@.len() == 0,
        r.selected_files@.len() == 0,
{
    let typed = priority_from(&parsed.priority);
    let (priority, due, tags) = match suggestion {
        Some(e) => {
            let p = match priority_from(&e.priority) {
                Some(p) => Some(p),
                None => typed,
            };
            let d = match &e.due {
                Some(d) => owned(d.as_str()),
                None => String::new(),
            };
            (p, d, merged_tags(&parsed.tags, &e.tags))
        },
        None => (typed, String::new(), copy_all(parsed.tags.as_slice())),
    };
    FormInput {
        description: owned(parsed.description.as_str()),
        project: owned(project),
        priority,
        due,
        tags: join(&tags, ","),
        selected_deps: Vec::new(),
        selected_files: Vec::new(),
    }
}

/// The fields of the task the form's answer creates: its texts, its
/// priority, the comma-separated tags (trimmed, blanks dropped) and the due
/// date as `parse_due` reads it (none when the text is empty).
pub fn task_from_form(form: &FormInput, dialect: &str) -> (r: TaskFields)
    ensures
        r.description@ == form.description@,
        r.project@ == form.project@,
        r.priority == form.priority,
        views(r.tags@) == trimmed_nonblank(pieces(form.tags@, ',')),
        form.due@.len() == 0 ==> r.due is None,
        form.due@.len() > 0 ==> exists|now: UtcTime, natural: Option<UtcTime>|
            r.due == #[trigger] due_spec(trim_spec(form.due@), now, natural),
{
    TaskFields {
        description: owned(form.description.as_str()),
        project: owned(form.project.as_str()),
        priority: form.priority,
        due: if form.due.unicode_len() == 0 {
            None
        } else {
            parse_due(form.due.as_str(), dialect)
        },
        tags: split_trimmed(form.tags.as_str(), ','),
    }
}

} // verus!
