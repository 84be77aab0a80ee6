//! The detail view of a task: its editable fields, how edits apply, and
//! which other branches touch the same files.

use vstd::prelude::*;
use crate::config::Config;
use crate::db::{is_url, link_display, looks_like_url, Link};
use crate::dates::{due_spec, is_valid_due, iso_date_end, local_date_string, parse_due, UtcTime};
use crate::model::{duration_text, format_duration, priority_label, Priority, TaskFields};
use crate::order::{sort_strings, sorted_strs};
use crate::project::{file_name, file_name_of};
use crate::text::{
    fmt_i64, fmt_u64, int_to_decimal, join, join_spec, nat_digits, owned, pad_left, pad_left_spec,
    pad_right, pad_right_spec,
    pieces, split_trimmed, str_eq, trim, trim_spec, trimmed_nonblank, truncate_ellipsis,
    truncate_spec, views,
};
use crate::tui::{
    append_lines, blank_line, line1, line2, line3, line_view, lines_view, push_line, Piece, Tone,
};

verus! {

#[derive(Clone, Copy, Debug, PartialEq, Eq, Structural)]
pub enum EditField {
    Description,
    Project,
    Priority,
    Due,
    Tags,
}

/// How many editable fields there are.
pub const EDIT_FIELD_COUNT: usize = 5;

pub open spec fn field_order(i: int) -> EditField {
    if i == 0 {
        EditField::Description
    } else if i == 1 {
        EditField::Project
    } else if i == 2 {
        EditField::Priority
    } else if i == 3 {
        EditField::Due
    } else {
        EditField::Tags
    }
}

/// The `i`-th editable field, in on-screen order.
pub fn edit_field(i: usize) -> (r: EditField)
    requires
        i < EDIT_FIELD_COUNT,
    ensures
        r == field_order(i as int),
{
    match i {
        0 => EditField::Description,
        1 => EditField::Project,
        2 => EditField::Priority,
        3 => EditField::Due,
        _ => EditField::Tags,
    }
}

pub open spec fn field_label(f: EditField) -> Seq<char> {
    match f {
        EditField::Description => "Description"@,
        EditField::Project => "Project"@,
        EditField::Priority => "Priority"@,
        EditField::Due => "Due"@,
        EditField::Tags => "Tags"@,
    }
}

impl EditField {
    pub fn label(&self) -> (r: &'static str)
        ensures
            r@ == field_label(*self),
    {
        match self {
            EditField::Description => "Description",
            EditField::Project => "Project",
            EditField::Priority => "Priority",
            EditField::Due => "Due",
            EditField::Tags => "Tags",
        }
    }
}

/// Something the cursor can land on in the detail view.
#[derive(Clone, Debug, PartialEq, Eq)]
pub enum Focusable {
    Field(EditField),
    File(String),
    Link(usize),
}

/// The focusable items in on-screen order: the editable fields, then the
/// links, then the attached files (manual ones first).
/// `x` is the file `name`.
pub open spec fn is_file(x: Focusable, name: Seq<char>) -> bool {
    x matches Focusable::File(f) && f@ == name
}

pub fn focusables(link_count: usize, manual_files: &Vec<String>, suggested_files: &Vec<String>) -> (r:
    Vec<Focusable>)
    ensures
        r@.len() == EDIT_FIELD_COUNT + link_count + manual_files@.len() + suggested_files@.len(),
        forall|i: int| 0 <= i < EDIT_FIELD_COUNT ==> #[trigger] r@[i] == Focusable::Field(field_order(i)),
        forall|i: int| EDIT_FIELD_COUNT <= i < EDIT_FIELD_COUNT + link_count ==> #[trigger] r@[i] == Focusable::Link((i - EDIT_FIELD_COUNT) as usize),
        forall|i: int|
            0 <= i < manual_files@.len() ==> is_file(r@[EDIT_FIELD_COUNT + link_count + i], (#[trigger] manual_files@[i])@),
        forall|i: int|
            0 <= i < suggested_files@.len() ==> is_file(r@[EDIT_FIELD_COUNT + link_count + manual_files@.len()
                + i], (#[trigger] suggested_files@[i])@),
{
    let mut v: Vec<Focusable> = Vec::new();
    let mut i: usize = 0;
    while i < EDIT_FIELD_COUNT
        invariant
            i <= EDIT_FIELD_COUNT,
            v@.len() == i,
            forall|k: int| 0 <= k < i ==> #[trigger] v@[k] == Focusable::Field(field_order(k)),
        decreases EDIT_FIELD_COUNT - i,
    {
        v.push(Focusable::Field(edit_field(i)));
        i = i + 1;
    }
    let mut k: usize = 0;
    while k < link_count
        invariant
            k <= link_count,
            v@.len() == EDIT_FIELD_COUNT + k,
            forall|j: int| 0 <= j < EDIT_FIELD_COUNT ==> #[trigger] v@[j] == Focusable::Field(field_order(j)),
            forall|j: int| EDIT_FIELD_COUNT <= j < EDIT_FIELD_COUNT + k ==> #[trigger] v@[j] == Focusable::Link((j - EDIT_FIELD_COUNT) as usize),
        decreases link_count - k,
    {
        v.push(Focusable::Link(k));
        k = k + 1;
    }
    let mut m: usize = 0;
    while m < manual_files.len()
        invariant
            m <= manual_files@.len(),
            v@.len() == EDIT_FIELD_COUNT + link_count + m,
            forall|j: int| 0 <= j < EDIT_FIELD_COUNT ==> #[trigger] v@[j] == Focusable::Field(field_order(j)),
            forall|j: int| EDIT_FIELD_COUNT <= j < EDIT_FIELD_COUNT + link_count ==> #[trigger] v@[j] == Focusable::Link((j - EDIT_FIELD_COUNT) as usize),
            forall|j: int|
                0 <= j < m ==> is_file(v@[EDIT_FIELD_COUNT + link_count + j], (#[trigger] manual_files@[j])@),
        decreases manual_files@.len() - m,
    {
        v.push(Focusable::File(manual_files[m].clone()));
        m = m + 1;
    }
    let mut s: usize = 0;
    while s < suggested_files.len()
        invariant
            s <= suggested_files@.len(),
            v@.len() == EDIT_FIELD_COUNT + link_count + manual_files@.len() + s,
            forall|j: int| 0 <= j < EDIT_FIELD_COUNT ==> #[trigger] v@[j] == Focusable::Field(field_order(j)),
            forall|j: int| EDIT_FIELD_COUNT <= j < EDIT_FIELD_COUNT + link_count ==> #[trigger] v@[j] == Focusable::Link((j - EDIT_FIELD_COUNT) as usize),
            forall|j: int|
                0 <= j < manual_files@.len() ==> is_file(v@[EDIT_FIELD_COUNT + link_count + j], (#[trigger] manual_files@[j])@),
            forall|j: int|
                0 <= j < s ==> is_file(v@[EDIT_FIELD_COUNT + link_count + manual_files@.len() + j], (#[trigger] suggested_files@[j])@),
        decreases suggested_files@.len() - s,
    {
        v.push(Focusable::File(suggested_files[s].clone()));
        s = s + 1;
    }
    v
}

// ── priority cycling ──────────────────────────────────────────────────────

/// One step right: none → L → M → H → none.
pub open spec fn next_priority(p: Option<Priority>) -> Option<Priority> {
    match p {
        None => Some(Priority::L),
        Some(Priority::L) => Some(Priority::M),
        Some(Priority::M) => Some(Priority::H),
        Some(Priority::H) => None,
    }
}

/// One step left: none → H → M → L → none.
pub open spec fn prev_priority(p: Option<Priority>) -> Option<Priority> {
    match p {
        None => Some(Priority::H),
        Some(Priority::H) => Some(Priority::M),
        Some(Priority::M) => Some(Priority::L),
        Some(Priority::L) => None,
    }
}

/// The priority one step right (`forward`) or left of `p`.
pub fn stepped_priority(p: Option<Priority>, forward: bool) -> (r: Option<Priority>)
    ensures
        r == (if forward {
            next_priority(p)
        } else {
            prev_priority(p)
        }),
{
    match (p, forward) {
        (None, true) => Some(Priority::L),
        (Some(Priority::L), true) => Some(Priority::M),
        (Some(Priority::M), true) => Some(Priority::H),
        (Some(Priority::H), true) => None,
        (None, false) => Some(Priority::H),
        (Some(Priority::H), false) => Some(Priority::M),
        (Some(Priority::M), false) => Some(Priority::L),
        (Some(Priority::L), false) => None,
    }
}

/// Step the priority right (`forward`) or left through none, L, M, H.
pub fn cycle_priority(task: &mut TaskFields, forward: bool)
    ensures
        final(task).priority == (if forward {
            next_priority(old(task).priority)
        } else {
            prev_priority(old(task).priority)
        }),
        final(task).description == old(task).description,
        final(task).project == old(task).project,
        final(task).due == old(task).due,
        final(task).tags == old(task).tags,
{
    task.priority = stepped_priority(task.priority, forward);
}

/// Stepping left undoes stepping right and the other way round; four steps
/// in one direction come back to the start.
pub proof fn lemma_priority_cycle(p: Option<Priority>)
    ensures
        prev_priority(next_priority(p)) == p,
        next_priority(prev_priority(p)) == p,
        next_priority(next_priority(next_priority(next_priority(p)))) == p,
        prev_priority(prev_priority(prev_priority(prev_priority(p)))) == p,
{
}

// ── field values and edits ────────────────────────────────────────────────

/// The text a field shows (the due date, which is shown in local time, is
/// left out).
pub open spec fn field_value(t: TaskFields, f: EditField) -> Seq<char> {
    match f {
        EditField::Description => t.description@,
        EditField::Project => t.project@,
        EditField::Priority => match t.priority {
            Some(p) => priority_label(p),
            None => Seq::empty(),
        },
        EditField::Tags => join_spec(views(t.tags@), ", "@),
        EditField::Due => Seq::empty(),
    }
}

/// The current value of a field, as its editor starts out.
pub fn current_value(task: &TaskFields, field: EditField) -> (r: String)
    ensures
        field != EditField::Due ==> r@ == field_value(*task, field),
        field == EditField::Due ==> (task.due is None <==> r@.len() == 0) || task.due is Some,
{
    match field {
        EditField::Description => task.description.clone(),
        EditField::Project => task.project.clone(),
        EditField::Priority => match &task.priority {
            Some(p) => owned(p.label()),
            None => String::new(),
        },
        EditField::Due => match task.due {
            Some(d) => local_date_string(d),
            None => String::new(),
        },
        EditField::Tags => join(&task.tags, ", "),
    }
}

/// The tags an edit of the Tags field sets: the comma-separated pieces,
/// trimmed, blank ones dropped.
pub open spec fn tags_from(value: Seq<char>) -> Seq<Seq<char>> {
    trimmed_nonblank(pieces(value, ','))
}

/// What editing a field (other than Due) to `value` does: description and
/// project take the trimmed value unless it is blank; tags are replaced;
/// the priority is not edited as text.
pub open spec fn edit_applies(old_t: TaskFields, new_t: TaskFields, f: EditField, value: Seq<char>) -> bool {
    &&& new_t.priority == old_t.priority
    &&& new_t.due == old_t.due
    &&& new_t.description@ == (if f == EditField::Description && trim_spec(value).len() > 0 {
        trim_spec(value)
    } else {
        old_t.description@
    })
    &&& new_t.project@ == (if f == EditField::Project && trim_spec(value).len() > 0 {
        trim_spec(value)
    } else {
        old_t.project@
    })
    &&& views(new_t.tags@) == (if f == EditField::Tags {
        tags_from(value)
    } else {
        views(old_t.tags@)
    })
}

/// Apply an edited value to a field. A Due edit clears the date when the
/// value is blank and otherwise sets what `parse_due` reads (nothing when
/// it cannot read it).
pub fn apply_field(task: &mut TaskFields, field: EditField, value: &str, cfg: &Config)
    ensures
        field != EditField::Due ==> edit_applies(*old(task), *final(task), field, value@),
        field == EditField::Due ==> {
            &&& final(task).description == old(task).description
            &&& final(task).project == old(task).project
            &&& final(task).priority == old(task).priority
            &&& final(task).tags == old(task).tags
            &&& trim_spec(value@).len() == 0 ==> final(task).due is None
            &&& trim_spec(value@).len() > 0 ==> exists|now: UtcTime, natural: Option<UtcTime>|
                final(task).due == #[trigger] due_spec(trim_spec(value@), now, natural)
            &&& trim_spec(value@).len() > 0 && iso_date_end(trim_spec(value@)) is Some
                ==> final(task).due == iso_date_end(trim_spec(value@))
        },
{
    match field {
        EditField::Description => {
            let t = trim(value);
            if t.unicode_len() > 0 {
                task.description = owned(t);
            }
        },
        EditField::Project => {
            let t = trim(value);
            if t.unicode_len() > 0 {
                task.project = owned(t);
            }
        },
        EditField::Due => {
            if trim(value).unicode_len() == 0 {
                task.due = None;
            } else {
                task.due = parse_due(value, cfg.date_dialect.as_str());
            }
        },
        EditField::Tags => {
            task.tags = split_trimmed(value, ',');
        },
        EditField::Priority => {},
    }
}

/// Editing a text field and reading it back gives the trimmed value (when it
/// is not blank); editing the tags and reading them back gives the cleaned
/// tags joined by `, `.
pub proof fn lemma_edit_reads_back(old_t: TaskFields, new_t: TaskFields, f: EditField, value: Seq<char>)
    requires
        f != EditField::Due,
        f != EditField::Priority,
        edit_applies(old_t, new_t, f, value),
        f != EditField::Tags ==> trim_spec(value).len() > 0,
    ensures
        field_value(new_t, f) == (if f == EditField::Tags {
            join_spec(tags_from(value), ", "@)
        } else {
            trim_spec(value)
        }),
{
}

/// `s` cut to `max` chars, the last replaced by `…` when cut.
pub fn truncate_str(s: &str, max: usize) -> (r: String)
    requires
        max > 0 || s@.len() == 0,
    ensures
        r@ == truncate_spec(s@, max as int),
{
    truncate_ellipsis(s, max)
}

// ── branch overlaps ───────────────────────────────────────────────────────

/// Another pending task whose branch snapshot touches some of the same files.
#[derive(Clone, Debug)]
pub struct BranchOverlap {
    pub id: i64,
    pub description: String,
    pub branch: String,
    pub shared_files: Vec<String>,
}

/// The file names in an optional snapshot, as a set.
pub open spec fn file_set(files: Option<Vec<String>>) -> Set<Seq<char>> {
    match files {
        Some(v) => views(v@).to_set(),
        None => Set::empty(),
    }
}

/// A pending task with a branch snapshot: `(id, description, branch, files)`.
pub struct BranchedTask {
    pub id: i64,
    pub description: String,
    pub branch: String,
    pub files: Option<Vec<String>>,
}

/// The overlaps of `mine` with each of `others`, in order: the ones sharing
/// a file, with the shared files as a set.
pub open spec fn overlaps_with(mine: Set<Seq<char>>, others: Seq<BranchedTask>) -> Seq<
    (i64, Seq<char>, Seq<char>, Set<Seq<char>>),
>
    decreases others.len(),
{
    if others.len() == 0 {
        Seq::empty()
    } else {
        let o = others.last();
        let shared = mine.intersect(file_set(o.files));
        let before = overlaps_with(mine, others.drop_last());
        if shared.len() > 0 {
            before.push((o.id, o.description@, o.branch@, shared))
        } else {
            before
        }
    }
}

proof fn lemma_same_multiset(a: Seq<Seq<char>>, b: Seq<Seq<char>>)
    requires
        a.to_multiset() == b.to_multiset(),
        a.no_duplicates(),
    ensures
        a.to_set() == b.to_set(),
        b.no_duplicates(),
{
    broadcast use vstd::seq_lib::group_to_multiset_ensures;

    assert(a.to_set() =~= b.to_set()) by {
        assert forall|x: Seq<char>| a.contains(x) <==> b.contains(x) by {
            assert(a.contains(x) <==> a.to_multiset().count(x) > 0);
            assert(b.contains(x) <==> b.to_multiset().count(x) > 0);
        }
    }
    a.lemma_multiset_has_no_duplicates();
    b.lemma_multiset_has_no_duplicates_conv();
}

fn contains_string(v: &Vec<String>, s: &str) -> (r: bool)
    ensures
        r == views(v@).contains(s@),
{
    let mut i: usize = 0;
    while i < v.len()
        invariant
            i <= v@.len(),
            forall|k: int| 0 <= k < i ==> v@[k]@ != s@,
        decreases v@.len() - i,
    {
        if str_eq(v[i].as_str(), s) {
            assert(views(v@)[i as int] == s@);
            return true;
        }
        i = i + 1;
    }
    proof {
        if views(v@).contains(s@) {
            let k = choose|k: int| 0 <= k < views(v@).len() && views(v@)[k] == s@;
            assert(v@[k]@ == s@);
        }
    }
    false
}

/// The files both snapshots hold, each once, in `str` order.
fn shared_files(mine: &Vec<String>, theirs: &Vec<String>) -> (r: Vec<String>)
    ensures
        views(r@).to_set() == views(mine@).to_set().intersect(views(theirs@).to_set()),
        views(r@).no_duplicates(),
        sorted_strs(views(r@)),
{
    let mut out: Vec<String> = Vec::new();
    let mut i: usize = 0;
    while i < theirs.len()
        invariant
            i <= theirs@.len(),
            views(out@).no_duplicates(),
            forall|x: Seq<char>| #[trigger] views(out@).contains(x) <==> (views(mine@).contains(x)
                && views(theirs@).take(i as int).contains(x)),
        decreases theirs@.len() - i,
    {
        let f = theirs[i].as_str();
        let ghost fv = f@;
        proof {
            assert(views(theirs@).take(i + 1) =~= views(theirs@).take(i as int).push(fv));
        }
        if contains_string(mine, f) && !contains_string(&out, f) {
            let ghost before = views(out@);
            out.push(owned(f));
            proof {
                assert(views(out@) =~= before.push(fv));
                assert forall|x: Seq<char>| #[trigger] views(out@).contains(x) <==> (views(mine@).contains(x)
                    && views(theirs@).take(i + 1).contains(x)) by {
                    if x == fv {
                        assert(views(out@)[before.len() as int] == fv);
                        assert(views(theirs@).take(i + 1)[i as int] == fv);
                    } else {
                        if views(out@).contains(x) {
                            let k = choose|k: int| 0 <= k < views(out@).len() && views(out@)[k] == x;
                            assert(before[k] == x);
                        }
                        if before.contains(x) {
                            let k = choose|k: int| 0 <= k < before.len() && before[k] == x;
                            assert(views(out@)[k] == x);
                        }
                        if views(theirs@).take(i + 1).contains(x) {
                            let k = choose|k: int|
                                0 <= k < i + 1 && #[trigger] views(theirs@).take(i + 1)[k] == x;
                            assert(views(theirs@).take(i as int)[k] == x);
                        }
                        if views(theirs@).take(i as int).contains(x) {
                            let k = choose|k: int|
                                0 <= k < i && #[trigger] views(theirs@).take(i as int)[k] == x;
                            assert(views(theirs@).take(i + 1)[k] == x);
                        }
                    }
                }
            }
        } else {
            proof {
                assert forall|x: Seq<char>| #[trigger] views(out@).contains(x) <==> (views(mine@).contains(x)
                    && views(theirs@).take(i + 1).contains(x)) by {
                    if x == fv {
                        assert(views(theirs@).take(i + 1)[i as int] == fv);
                    } else {
                        if views(theirs@).take(i + 1).contains(x) {
                            let k = choose|k: int|
                                0 <= k < i + 1 && #[trigger] views(theirs@).take(i + 1)[k] == x;
                            assert(views(theirs@).take(i as int)[k] == x);
                        }
                        if views(theirs@).take(i as int).contains(x) {
                            let k = choose|k: int|
                                0 <= k < i && #[trigger] views(theirs@).take(i as int)[k] == x;
                            assert(views(theirs@).take(i + 1)[k] == x);
                        }
                    }
                }
            }
        }
        i = i + 1;
    }
    assert(views(theirs@).take(theirs@.len() as int) =~= views(theirs@));
    let ghost unsorted = views(out@);
    let sorted = sort_strings(out);
    proof {
        lemma_same_multiset(unsorted, views(sorted@));
        assert(views(sorted@).to_set() =~= views(mine@).to_set().intersect(views(theirs@).to_set()));
    }
    sorted
}

/// The other branched tasks sharing files with the given snapshot (none
/// when the given snapshot holds no files), each with the shared files sorted.
pub fn compute_overlaps(my_files: &Option<Vec<String>>, others: &Vec<BranchedTask>) -> (r: Vec<
    BranchOverlap,
>)
    ensures
        file_set(*my_files).len() == 0 ==> r@.len() == 0,
        file_set(*my_files).len() > 0 ==> {
            let spec = overlaps_with(file_set(*my_files), others@);
            &&& r@.len() == spec.len()
            &&& forall|k: int|
                0 <= k < r@.len() ==> {
                    &&& (#[trigger] r@[k]).id == spec[k].0
                    &&& r@[k].description@ == spec[k].1
                    &&& r@[k].branch@ == spec[k].2
                    &&& views(r@[k].shared_files@).to_set() == spec[k].3
                    &&& views(r@[k].shared_files@).no_duplicates()
                    &&& sorted_strs(views(r@[k].shared_files@))
                }
        },
{
    let mine: &Vec<String> = match my_files {
        Some(v) => v,
        None => {
            return Vec::new();
        },
    };
    if mine.len() == 0 {
        proof {
            assert(views(mine@).to_set() =~= Set::<Seq<char>>::empty());
        }
        return Vec::new();
    }
    proof {
        vstd::seq_lib::seq_to_set_is_finite(views(mine@));
        assert(views(mine@).to_set().contains(views(mine@)[0]));
    }
    let ghost m = file_set(*my_files);
    let mut result: Vec<BranchOverlap> = Vec::new();
    let mut i: usize = 0;
    assert(others@.take(0) =~= Seq::<BranchedTask>::empty());
    while i < others.len()
        invariant
            i <= others@.len(),
            m == views(mine@).to_set(),
            m.finite(),
            result@.len() == overlaps_with(m, others@.take(i as int)).len(),
            forall|k: int|
                0 <= k < result@.len() ==> {
                    let spec = overlaps_with(m, others@.take(i as int));
                    &&& (#[trigger] result@[k]).id == spec[k].0
                    &&& result@[k].description@ == spec[k].1
                    &&& result@[k].branch@ == spec[k].2
                    &&& views(result@[k].shared_files@).to_set() == spec[k].3
                    &&& views(result@[k].shared_files@).no_duplicates()
                    &&& sorted_strs(views(result@[k].shared_files@))
                },
        decreases others@.len() - i,
    {
        let o = &others[i];
        proof {
            assert(others@.take(i + 1).drop_last() =~= others@.take(i as int));
            assert(others@.take(i + 1).last() == others@[i as int]);
        }
        let theirs: Vec<String> = match &o.files {
            Some(v) => v.clone(),
            None => Vec::new(),
        };
        proof {
            if o.files is None {
                assert(views(theirs@).to_set() =~= Set::<Seq<char>>::empty());
            }
        }
        let shared = shared_files(mine, &theirs);
        proof {
            assert(views(shared@).to_set() == m.intersect(file_set(o.files)));
            views(shared@).unique_seq_to_set();
        }
        if shared.len() > 0 {
            let ghost before = result@;
            result.push(
                BranchOverlap {
                    id: o.id,
                    description: o.description.clone(),
                    branch: o.branch.clone(),
                    shared_files: shared,
                },
            );
            proof {
                assert forall|k: int| 0 <= k < result@.len() implies {
                    let spec = overlaps_with(m, others@.take(i + 1));
                    &&& (#[trigger] result@[k]).id == spec[k].0
                    &&& result@[k].description@ == spec[k].1
                    &&& result@[k].branch@ == spec[k].2
                    &&& views(result@[k].shared_files@).to_set() == spec[k].3
                    &&& views(result@[k].shared_files@).no_duplicates()
                    &&& sorted_strs(views(result@[k].shared_files@))
                } by {
                    if k < before.len() {
                        assert(result@[k] == before[k]);
                    }
                }
            }
        } else {
            assert(views(shared@).to_set().len() == 0);
        }
        i = i + 1;
    }
    assert(others@.take(others@.len() as int) =~= others@);
    result
}

// ── the Git panel ─────────────────────────────────────────────────────────

/// A task's branch snapshot as the panel shows it; `logged` is the time of
/// the snapshot, already written out in local time.
pub struct BranchPanel {
    pub branch: String,
    pub base: Option<String>,
    pub logged: Option<String>,
    pub files: Option<Vec<String>>,
}

/// How many changed files the panel lists before summing up the rest.
pub const PANEL_MAX_FILES: usize = 20;

/// The name a path is shown by: its last component, else the path itself.
pub open spec fn shown_name(f: Seq<char>) -> Seq<char> {
    match file_name_of(f) {
        Some(n) => n,
        None => f,
    }
}

fn shown_file_name(f: &str) -> (r: String)
    ensures
        r@ == shown_name(f@),
{
    match file_name(f) {
        Some(n) => n,
        None => owned(f),
    }
}

pub open spec fn plural_s(n: int) -> Seq<char> {
    if n == 1 {
        ""@
    } else {
        "s"@
    }
}

/// One changed file: its name, and the whole path beside it when that
/// differs.
pub open spec fn file_row(f: Seq<char>) -> Seq<(Seq<char>, Tone)> {
    let name = shown_name(f);
    seq![
        ("    "@, Tone::Plain),
        (name, Tone::Accent),
        if name != f {
            ("  "@ + f, Tone::Dim)
        } else {
            (""@, Tone::Plain)
        },
    ]
}

/// The snapshot part of the panel.
pub open spec fn files_section(files: Option<Seq<Seq<char>>>) -> Seq<Seq<(Seq<char>, Tone)>> {
    match files {
        None => seq![seq![("  No snapshot yet."@, Tone::Dim)], seq![("  Run: tk stop <id>"@, Tone::Muted)]],
        Some(fs) => if fs.len() == 0 {
            seq![seq![("  No changes vs base."@, Tone::Good)]]
        } else {
            let shown = if fs.len() <= 20 {
                fs.len() as int
            } else {
                20
            };
            seq![
                seq![
                    (
                        "  "@ + nat_digits(fs.len()) + " file"@ + plural_s(fs.len() as int)
                            + " changed"@,
                        Tone::Warn,
                    ),
                ],
            ] + fs.take(shown).map_values(|f: Seq<char>| file_row(f)) + if fs.len() > 20 {
                seq![seq![("    +"@ + nat_digits((fs.len() - 20) as nat) + " more"@, Tone::Dim)]]
            } else {
                Seq::empty()
            }
        },
    }
}

/// One overlapping task: its id, description and branch, then each shared
/// file by name.
pub open spec fn overlap_rows(o: BranchOverlap) -> Seq<Seq<(Seq<char>, Tone)>> {
    seq![
        seq![
            ("  ["@ + pad_left_spec(int_to_decimal(o.id as int), 2) + "] "@, Tone::Muted),
            (truncate_spec(o.description@, 20), Tone::Warn),
            (" ("@ + o.branch@ + ")"@, Tone::Dim),
        ],
    ] + o.shared_files@.map_values(|sf: String| seq![("    ↳ "@ + shown_name(sf@), Tone::Bad)])
}

pub open spec fn overlap_section(os: Seq<BranchOverlap>) -> Seq<Seq<(Seq<char>, Tone)>>
    decreases os.len(),
{
    if os.len() == 0 {
        Seq::empty()
    } else {
        overlap_section(os.drop_last()) + overlap_rows(os.last())
    }
}

pub open spec fn opt_views(o: Option<Vec<String>>) -> Option<Seq<Seq<char>>> {
    match o {
        Some(v) => Some(views(v@)),
        None => None,
    }
}

/// The Git panel of the detail view.
pub open spec fn git_panel(b: Option<BranchPanel>, overlaps: Seq<BranchOverlap>) -> Seq<
    Seq<(Seq<char>, Tone)>,
> {
    match b {
        None => seq![
            seq![("  No branch tied."@, Tone::Dim)],
            Seq::empty(),
            seq![("  Run: tk <id> addbranch"@, Tone::Muted)],
            seq![("  Then: tk stop <id> to snapshot."@, Tone::Muted)],
        ],
        Some(r) => {
            let head = seq![seq![("  Branch  "@, Tone::Dim), (r.branch@, Tone::AccentBold)]] + (
            match r.base {
                Some(x) => seq![seq![("  Base    "@, Tone::Dim), (x@, Tone::Muted)]],
                None => Seq::empty(),
            }) + (match r.logged {
                Some(x) => seq![seq![("  Logged  "@, Tone::Dim), (x@, Tone::Muted)]],
                None => Seq::empty(),
            }) + seq![Seq::empty()];
            head + files_section(opt_views(r.files)) + if overlaps.len() > 0 {
                seq![Seq::empty(), seq![("  ⚠  Potential overlaps"@, Tone::WarnBold)]]
                    + overlap_section(overlaps)
            } else {
                Seq::empty()
            }
        },
    }
}

fn cat(a: &str, b: &str) -> (r: String)
    ensures
        r@ == a@ + b@,
{
    let mut r = owned(a);
    r.append(b);
    r
}

fn file_row_line(f: &str) -> (r: Vec<Piece>)
    ensures
        line_view(r) == file_row(f@),
{
    let name = shown_file_name(f);
    let last = if !str_eq(name.as_str(), f) {
        cat("  ", f)
    } else {
        owned("")
    };
    let tone = if !str_eq(name.as_str(), f) {
        Tone::Dim
    } else {
        Tone::Plain
    };
    line3(owned("    "), Tone::Plain, name, Tone::Accent, last, tone)
}

fn files_lines(files: &Option<Vec<String>>) -> (r: Vec<Vec<Piece>>)
    ensures
        lines_view(r@) == files_section(opt_views(*files)),
{
    let mut out: Vec<Vec<Piece>> = Vec::new();
    match files {
        None => {
            push_line(&mut out, line1(owned("  No snapshot yet."), Tone::Dim));
            push_line(&mut out, line1(owned("  Run: tk stop <id>"), Tone::Muted));
            assert(lines_view(out@) =~= files_section(opt_views(*files)));
        },
        Some(fs) => {
            let ghost v = views(fs@);
            if fs.len() == 0 {
                push_line(&mut out, line1(owned("  No changes vs base."), Tone::Good));
                assert(lines_view(out@) =~= files_section(opt_views(*files)));
            } else {
                let n = fs.len();
                let mut head = cat("  ", fmt_u64(n as u64).as_str());
                head.append(" file");
                if n != 1 {
                    head.append("s");
                }
                head.append(" changed");
                proof {
                    assert(head@ == "  "@ + nat_digits(v.len()) + " file"@ + plural_s(v.len() as int)
                        + " changed"@) by {
                        if n == 1 {
                            reveal_strlit("");
                            assert("  "@ + nat_digits(v.len()) + " file"@ =~= "  "@ + nat_digits(
                                v.len(),
                            ) + " file"@ + ""@);
                        }
                    }
                }
                push_line(&mut out, line1(head, Tone::Warn));
                let shown = if n <= PANEL_MAX_FILES {
                    n
                } else {
                    PANEL_MAX_FILES
                };
                let ghost start = lines_view(out@);
                let mut i: usize = 0;
                while i < shown
                    invariant
                        shown <= fs@.len(),
                        v == views(fs@),
                        i <= shown,
                        lines_view(out@) == start + v.take(i as int).map_values(
                            |f: Seq<char>| file_row(f),
                        ),
                    decreases shown - i,
                {
                    let row = file_row_line(fs[i].as_str());
                    push_line(&mut out, row);
                    proof {
                        assert(v.take(i + 1) =~= v.take(i as int).push(v[i as int]));
                        assert(v.take(i + 1).map_values(|f: Seq<char>| file_row(f)) =~= v.take(
                            i as int,
                        ).map_values(|f: Seq<char>| file_row(f)).push(file_row(v[i as int])));
                    }
                    i = i + 1;
                }
                if n > PANEL_MAX_FILES {
                    let mut more = cat("    +", fmt_u64((n - PANEL_MAX_FILES) as u64).as_str());
                    more.append(" more");
                    push_line(&mut out, line1(more, Tone::Dim));
                }
                assert(lines_view(out@) =~= files_section(opt_views(*files)));
            }
        },
    }
    out
}

fn overlap_lines(o: &BranchOverlap) -> (r: Vec<Vec<Piece>>)
    ensures
        lines_view(r@) == overlap_rows(*o),
{
    let mut out: Vec<Vec<Piece>> = Vec::new();
    let mut first = cat("  [", pad_left(fmt_i64(o.id).as_str(), 2).as_str());
    first.append("] ");
    let mut br = cat(" (", o.branch.as_str());
    br.append(")");
    push_line(
        &mut out,
        line3(first, Tone::Muted, truncate_str(o.description.as_str(), 20), Tone::Warn, br, Tone::Dim),
    );
    let ghost start = lines_view(out@);
    let mut k: usize = 0;
    while k < o.shared_files.len()
        invariant
            k <= o.shared_files@.len(),
            lines_view(out@) == start + o.shared_files@.take(k as int).map_values(
                |sf: String| seq![("    ↳ "@ + shown_name(sf@), Tone::Bad)],
            ),
        decreases o.shared_files@.len() - k,
    {
        let t = cat("    ↳ ", shown_file_name(o.shared_files[k].as_str()).as_str());
        push_line(&mut out, line1(t, Tone::Bad));
        proof {
            let sf = o.shared_files@;
            assert(sf.take(k + 1) =~= sf.take(k as int).push(sf[k as int]));
            assert(sf.take(k + 1).map_values(|sf: String| seq![("    ↳ "@ + shown_name(sf@), Tone::Bad)])
                =~= sf.take(k as int).map_values(
                |sf: String| seq![("    ↳ "@ + shown_name(sf@), Tone::Bad)],
            ).push(seq![("    ↳ "@ + shown_name(sf[k as int]@), Tone::Bad)]));
        }
        k = k + 1;
    }
    assert(o.shared_files@.take(o.shared_files@.len() as int) =~= o.shared_files@);
    out
}

/// The lines of the Git panel: the branch, its base and snapshot time, the
/// changed files (at most `PANEL_MAX_FILES`, then a count of the rest), and
/// the other tasks whose snapshots share files with this one.
pub fn git_panel_lines(branch: &Option<BranchPanel>, overlaps: &Vec<BranchOverlap>) -> (r: Vec<
    Vec<Piece>,
>)
    ensures
        lines_view(r@) == git_panel(*branch, overlaps@),
{
    let mut out: Vec<Vec<Piece>> = Vec::new();
    match branch {
        None => {
            push_line(&mut out, line1(owned("  No branch tied."), Tone::Dim));
            push_line(&mut out, blank_line());
            push_line(&mut out, line1(owned("  Run: tk <id> addbranch"), Tone::Muted));
            push_line(&mut out, line1(owned("  Then: tk stop <id> to snapshot."), Tone::Muted));
            assert(lines_view(out@) =~= git_panel(*branch, overlaps@));
            out
        },
        Some(rec) => {
            push_line(
                &mut out,
                line2(owned("  Branch  "), Tone::Dim, rec.branch.clone(), Tone::AccentBold),
            );
            match &rec.base {
                Some(b) => push_line(&mut out, line2(owned("  Base    "), Tone::Dim, owned(b.as_str()), Tone::Muted)),
                None => {},
            }
            match &rec.logged {
                Some(t) => push_line(&mut out, line2(owned("  Logged  "), Tone::Dim, owned(t.as_str()), Tone::Muted)),
                None => {},
            }
            push_line(&mut out, blank_line());
            let ghost head = lines_view(out@);
            append_lines(&mut out, files_lines(&rec.files));
            let ghost mid = lines_view(out@);
            if overlaps.len() > 0 {
                push_line(&mut out, blank_line());
                push_line(&mut out, line1(owned("  ⚠  Potential overlaps"), Tone::WarnBold));
                let ghost top = lines_view(out@);
                let mut k: usize = 0;
                while k < overlaps.len()
                    invariant
                        k <= overlaps@.len(),
                        lines_view(out@) == top + overlap_section(overlaps@.take(k as int)),
                    decreases overlaps@.len() - k,
                {
                    append_lines(&mut out, overlap_lines(&overlaps[k]));
                    proof {
                        let os = overlaps@;
                        assert(os.take(k + 1).drop_last() =~= os.take(k as int));
                        assert(os.take(k + 1).last() == os[k as int]);
                    }
                    k = k + 1;
                }
                assert(overlaps@.take(overlaps@.len() as int) =~= overlaps@);
            }
            proof {
                let r = branch.unwrap();
                let h = seq![seq![("  Branch  "@, Tone::Dim), (r.branch@, Tone::AccentBold)]] + (
                match r.base {
                    Some(x) => seq![seq![("  Base    "@, Tone::Dim), (x@, Tone::Muted)]],
                    None => Seq::empty(),
                }) + (match r.logged {
                    Some(x) => seq![seq![("  Logged  "@, Tone::Dim), (x@, Tone::Muted)]],
                    None => Seq::empty(),
                }) + seq![Seq::empty()];
                assert(head =~= h);
            }
            assert(lines_view(out@) =~= git_panel(*branch, overlaps@));
            out
        },
    }
}

// ── the History box ───────────────────────────────────────────────────────

/// One recorded change, with its time already written out in local time.
pub struct HistoryRow {
    pub date: String,
    pub field: String,
    pub old_value: Option<String>,
    pub new_value: Option<String>,
}

pub open spec fn opt_view(o: Option<String>) -> Option<Seq<char>> {
    match o {
        Some(s) => Some(s@),
        None => None,
    }
}

pub open spec fn or_text(o: Option<Seq<char>>, d: Seq<char>) -> Seq<char> {
    match o {
        Some(s) => s,
        None => d,
    }
}

/// The History box's line for one change: when, what, and the change
/// itself (the text of an added or removed comment or link, else the old
/// and the new value).
pub open spec fn history_row(h: HistoryRow) -> Seq<(Seq<char>, Tone)> {
    let label = if h.field@ == "annotation"@ {
        "comment"@
    } else {
        h.field@
    };
    let head = seq![
        ("  "@ + h.date@ + "  "@, Tone::Dim),
        (pad_right_spec(label, 11) + " "@, Tone::Accent),
    ];
    let new_v = opt_view(h.new_value);
    let old_v = opt_view(h.old_value);
    if h.field@ == "created"@ {
        head.push((or_text(new_v, ""@), Tone::Plain))
    } else if h.field@ == "annotation"@ || h.field@ == "link"@ {
        match new_v {
            Some(t) => head + seq![("+ "@, Tone::Good), (t, Tone::Plain)],
            None => match old_v {
                Some(t) => head + seq![("− "@, Tone::Bad), (t, Tone::Plain)],
                None => head,
            },
        }
    } else {
        head + seq![
            (or_text(old_v, "—"@), Tone::Muted),
            (" → "@, Tone::Dim),
            (or_text(new_v, "—"@), Tone::Plain),
        ]
    }
}

fn text_or(o: &Option<String>, d: &str) -> (r: String)
    ensures
        r@ == or_text(opt_view(*o), d@),
{
    match o {
        Some(s) => owned(s.as_str()),
        None => owned(d),
    }
}

fn history_row_line(h: &HistoryRow) -> (r: Vec<Piece>)
    ensures
        line_view(r) == history_row(*h),
{
    let is_annotation = str_eq(h.field.as_str(), "annotation");
    let label = if is_annotation {
        owned("comment")
    } else {
        owned(h.field.as_str())
    };
    let mut date = cat("  ", h.date.as_str());
    date.append("  ");
    let mut lab = pad_right(label.as_str(), 11);
    lab.append(" ");
    let mut v = line2(date, Tone::Dim, lab, Tone::Accent);
    let ghost head = line_view(v);
    if str_eq(h.field.as_str(), "created") {
        v.push(Piece { text: text_or(&h.new_value, ""), tone: Tone::Plain });
        assert(line_view(v) =~= history_row(*h));
    } else if is_annotation || str_eq(h.field.as_str(), "link") {
        match &h.new_value {
            Some(t) => {
                v.push(Piece { text: owned("+ "), tone: Tone::Good });
                v.push(Piece { text: owned(t.as_str()), tone: Tone::Plain });
                assert(line_view(v) =~= history_row(*h));
            },
            None => match &h.old_value {
                Some(t) => {
                    v.push(Piece { text: owned("− "), tone: Tone::Bad });
                    v.push(Piece { text: owned(t.as_str()), tone: Tone::Plain });
                    assert(line_view(v) =~= history_row(*h));
                },
                None => {
                    assert(line_view(v) =~= history_row(*h));
                },
            },
        }
    } else {
        v.push(Piece { text: text_or(&h.old_value, "—"), tone: Tone::Muted });
        v.push(Piece { text: owned(" → "), tone: Tone::Dim });
        v.push(Piece { text: text_or(&h.new_value, "—"), tone: Tone::Plain });
        assert(line_view(v) =~= history_row(*h));
    }
    v
}

/// The History box: one line per change, newest first.
pub fn history_lines(history: &Vec<HistoryRow>) -> (r: Vec<Vec<Piece>>)
    ensures
        r@.len() == history@.len(),
        forall|i: int|
            0 <= i < history@.len() ==> line_view(#[trigger] r@[i]) == history_row(
                history@[history@.len() - 1 - i],
            ),
{
    let mut out: Vec<Vec<Piece>> = Vec::new();
    let n = history.len();
    let mut k: usize = 0;
    while k < n
        invariant
            n == history@.len(),
            k <= n,
            out@.len() == k,
            forall|i: int| 0 <= i < k ==> line_view(#[trigger] out@[i]) == history_row(history@[n - 1 - i]),
        decreases n - k,
    {
        out.push(history_row_line(&history[n - 1 - k]));
        k = k + 1;
    }
    out
}

/// The one-line account of a change in the plain-text view.
pub open spec fn history_change(field: Seq<char>, old_v: Option<Seq<char>>, new_v: Option<Seq<char>>) -> Seq<char> {
    if field == "created"@ {
        or_text(new_v, ""@)
    } else if field == "annotation"@ {
        match (new_v, old_v) {
            (Some(t), _) => "comment added: "@ + t,
            (None, Some(t)) => "comment removed: "@ + t,
            _ => "comment"@,
        }
    } else {
        field + ": "@ + or_text(old_v, "-"@) + " -> "@ + or_text(new_v, "-"@)
    }
}

pub fn history_change_text(h: &HistoryRow) -> (r: String)
    ensures
        r@ == history_change(h.field@, opt_view(h.old_value), opt_view(h.new_value)),
{
    if str_eq(h.field.as_str(), "created") {
        text_or(&h.new_value, "")
    } else if str_eq(h.field.as_str(), "annotation") {
        match (&h.new_value, &h.old_value) {
            (Some(t), _) => cat("comment added: ", t.as_str()),
            (None, Some(t)) => cat("comment removed: ", t.as_str()),
            _ => owned("comment"),
        }
    } else {
        let mut r = cat(h.field.as_str(), ": ");
        r.append(text_or(&h.old_value, "-").as_str());
        r.append(" -> ");
        r.append(text_or(&h.new_value, "-").as_str());
        r
    }
}

// ── keys in the detail view ───────────────────────────────────────────────

/// A key press as the detail view tells keys apart.
#[derive(Clone, Copy, Debug, PartialEq, Eq, Structural)]
pub enum DetailKey {
    Enter,
    Esc,
    Up,
    Down,
    Left,
    Right,
    PageUp,
    PageDown,
    Char(char),
    Other,
}

/// What the caller does after a key.
#[derive(Clone, Copy, Debug, PartialEq, Eq, Structural)]
pub enum DetailAction {
    Nothing,
    /// Close the view.
    Quit,
    /// Step the priority (right when `true`) and save.
    CyclePriority(bool),
    /// Open the editor on the field, filled with its current value.
    StartEdit(EditField),
    /// Apply the editor's text to the field and save.
    Commit(EditField),
    /// Hand the key to the editor of the field (and, for the due date,
    /// check the text again with `recheck_due`).
    FeedEditor(EditField),
    /// Open the link of that index in the browser.
    OpenLink(usize),
    /// Open the file at that position of the focusable items in the browser
    /// (it is a URL).
    OpenUrl(usize),
    /// Open the file at that position of the focusable items in the editor.
    OpenFile(usize),
}

/// Where the cursor is and what the view is doing.
#[derive(Clone, Copy, Debug, PartialEq, Eq, Structural)]
pub struct DetailCursor {
    pub selected: usize,
    pub editing: bool,
    pub due_error: bool,
    pub scroll: u16,
}

/// The cursor kept on an item when the items shrank under it.
pub open spec fn clamped(sel: usize, n: nat) -> usize {
    if n > 0 && sel >= n {
        (n - 1) as usize
    } else {
        sel
    }
}

pub open spec fn field_under(items: Seq<Focusable>, sel: usize) -> Option<EditField> {
    if sel < items.len() {
        match items[sel as int] {
            Focusable::Field(f) => Some(f),
            _ => None,
        }
    } else {
        None
    }
}

/// The cursor and the action after one key, given the items on screen,
/// the editor's text and whether that text reads as a due date.
pub open spec fn detail_step(
    c: DetailCursor,
    items: Seq<Focusable>,
    key: DetailKey,
    text: Seq<char>,
    due_ok: bool,
) -> (DetailCursor, DetailAction) {
    let n = items.len();
    let sel = clamped(c.selected, n);
    let c1 = DetailCursor { selected: sel, ..c };
    let cur_field = field_under(items, sel);
    if c.editing {
        let field = match cur_field {
            Some(f) => f,
            None => EditField::Description,
        };
        match key {
            DetailKey::Enter => if field == EditField::Due && trim_spec(text).len() > 0 && !due_ok {
                (DetailCursor { due_error: true, ..c1 }, DetailAction::Nothing)
            } else {
                (DetailCursor { editing: false, due_error: false, ..c1 }, DetailAction::Commit(field))
            },
            DetailKey::Esc => (DetailCursor { editing: false, due_error: false, ..c1 }, DetailAction::Nothing),
            _ => (c1, DetailAction::FeedEditor(field)),
        }
    } else {
        match key {
            DetailKey::Esc | DetailKey::Char('q') => (c1, DetailAction::Quit),
            DetailKey::Down | DetailKey::Char('j') => (
                if n > 0 {
                    DetailCursor {
                        selected: if sel + 1 < n {
                            (sel + 1) as usize
                        } else {
                            (n - 1) as usize
                        },
                        ..c1
                    }
                } else {
                    c1
                },
                DetailAction::Nothing,
            ),
            DetailKey::Up | DetailKey::Char('k') => (
                DetailCursor { selected: if sel == 0 { 0 } else { (sel - 1) as usize }, ..c1 },
                DetailAction::Nothing,
            ),
            DetailKey::PageDown => (
                DetailCursor {
                    scroll: if c.scroll + 5 <= u16::MAX {
                        (c.scroll + 5) as u16
                    } else {
                        u16::MAX
                    },
                    ..c1
                },
                DetailAction::Nothing,
            ),
            DetailKey::PageUp => (
                DetailCursor { scroll: if c.scroll >= 5 { (c.scroll - 5) as u16 } else { 0 }, ..c1 },
                DetailAction::Nothing,
            ),
            DetailKey::Left => if cur_field == Some(EditField::Priority) {
                (c1, DetailAction::CyclePriority(false))
            } else {
                (c1, DetailAction::Nothing)
            },
            DetailKey::Right => if cur_field == Some(EditField::Priority) {
                (c1, DetailAction::CyclePriority(true))
            } else {
                (c1, DetailAction::Nothing)
            },
            DetailKey::Enter | DetailKey::Char('e') => if sel < n {
                match items[sel as int] {
                    Focusable::Field(EditField::Priority) => (c1, DetailAction::CyclePriority(true)),
                    Focusable::Field(f) => (
                        DetailCursor { editing: true, due_error: false, ..c1 },
                        DetailAction::StartEdit(f),
                    ),
                    Focusable::Link(i) => (c1, DetailAction::OpenLink(i)),
                    Focusable::File(p) => if looks_like_url(p@) {
                        (c1, DetailAction::OpenUrl(sel))
                    } else {
                        (c1, DetailAction::OpenFile(sel))
                    },
                }
            } else {
                (c1, DetailAction::Nothing)
            },
            _ => (c1, DetailAction::Nothing),
        }
    }
}

impl DetailCursor {
    /// The cursor as the view opens.
    pub fn new() -> (r: DetailCursor)
        ensures
            r == (DetailCursor { selected: 0, editing: false, due_error: false, scroll: 0 }),
    {
        DetailCursor { selected: 0, editing: false, due_error: false, scroll: 0 }
    }

    /// Handle one key, with `due_ok` telling whether the editor's text reads
    /// as a due date.
    pub fn step(&mut self, items: &Vec<Focusable>, key: DetailKey, text: &str, due_ok: bool) -> (r:
        DetailAction)
        ensures
            (*final(self), r) == detail_step(*old(self), items@, key, text@, due_ok),
    {
        let n = items.len();
        if n > 0 && self.selected >= n {
            self.selected = n - 1;
        }
        let sel = self.selected;
        let cur_field: Option<EditField> = if sel < n {
            match &items[sel] {
                Focusable::Field(f) => Some(*f),
                _ => None,
            }
        } else {
            None
        };
        if self.editing {
            let field = match cur_field {
                Some(f) => f,
                None => EditField::Description,
            };
            match key {
                DetailKey::Enter => {
                    if field == EditField::Due && trim(text).unicode_len() > 0 && !due_ok {
                        self.due_error = true;
                        DetailAction::Nothing
                    } else {
                        self.editing = false;
                        self.due_error = false;
                        DetailAction::Commit(field)
                    }
                },
                DetailKey::Esc => {
                    self.editing = false;
                    self.due_error = false;
                    DetailAction::Nothing
                },
                _ => DetailAction::FeedEditor(field),
            }
        } else {
            match key {
                DetailKey::Esc | DetailKey::Char('q') => DetailAction::Quit,
                DetailKey::Down | DetailKey::Char('j') => {
                    if n > 0 {
                        self.selected = if sel + 1 < n {
                            sel + 1
                        } else {
                            n - 1
                        };
                    }
                    DetailAction::Nothing
                },
                DetailKey::Up | DetailKey::Char('k') => {
                    self.selected = if sel == 0 {
                        0
                    } else {
                        sel - 1
                    };
                    DetailAction::Nothing
                },
                DetailKey::PageDown => {
                    self.scroll = if self.scroll <= u16::MAX - 5 {
                        self.scroll + 5
                    } else {
                        u16::MAX
                    };
                    DetailAction::Nothing
                },
                DetailKey::PageUp => {
                    self.scroll = if self.scroll >= 5 {
                        self.scroll - 5
                    } else {
                        0
                    };
                    DetailAction::Nothing
                },
                DetailKey::Left => {
                    if cur_field == Some(EditField::Priority) {
                        DetailAction::CyclePriority(false)
                    } else {
                        DetailAction::Nothing
                    }
                },
                DetailKey::Right => {
                    if cur_field == Some(EditField::Priority) {
                        DetailAction::CyclePriority(true)
                    } else {
                        DetailAction::Nothing
                    }
                },
                DetailKey::Enter | DetailKey::Char('e') => {
                    if sel < n {
                        match &items[sel] {
                            Focusable::Field(EditField::Priority) => DetailAction::CyclePriority(true),
                            Focusable::Field(f) => {
                                self.editing = true;
                                self.due_error = false;
                                DetailAction::StartEdit(*f)
                            },
                            Focusable::Link(i) => DetailAction::OpenLink(*i),
                            Focusable::File(p) => {
                                if is_url(p.as_str()) {
                                    DetailAction::OpenUrl(sel)
                                } else {
                                    DetailAction::OpenFile(sel)
                                }
                            },
                        }
                    } else {
                        DetailAction::Nothing
                    }
                },
                _ => DetailAction::Nothing,
            }
        }
    }

    /// Handle one key, checking the editor's text against the due-date
    /// reader first; the outcome is `step` with that reading, whatever it was.
    pub fn on_key(&mut self, items: &Vec<Focusable>, key: DetailKey, text: &str) -> (r: DetailAction)
        ensures
            exists|ok: bool|
                {
                    &&& (*final(self), r) == detail_step(*old(self), items@, key, text@, ok)
                    &&& (iso_date_end(trim_spec(text@)) is Some ==> ok)
                    &&& (ok ==> trim_spec(text@).len() == 0 || exists|
                        now: UtcTime,
                        natural: Option<UtcTime>,
                    | (#[trigger] due_spec(trim_spec(text@), now, natural)) is Some)
                },
    {
        let ok = is_valid_due(text);
        self.step(items, key, text, ok)
    }

    /// After the editor of `field` took a key: for the due date, mark the
    /// text wrong when it is not blank and does not read as a date
    /// (`due_ok`); nothing else changes.
    pub fn recheck_due(&mut self, field: EditField, text: &str, due_ok: bool)
        ensures
            *final(self) == (if field == EditField::Due {
                DetailCursor { due_error: trim_spec(text@).len() > 0 && !due_ok, ..*old(self) }
            } else {
                *old(self)
            }),
    {
        if field == EditField::Due {
            self.due_error = trim(text).unicode_len() > 0 && !due_ok;
        }
    }
}

// ── the main panel of the detail view ─────────────────────────────────────

/// A comment as the detail view lists it, its time already written out in
/// local time.
pub struct CommentRow {
    pub id: i64,
    pub date: String,
    pub text: String,
}

/// What the main panel shows of a task. The values that depend on the
/// clock or the local time zone come written out: `due_short` (the Due
/// field's value, the local date or empty), `due_long` (local date and time
/// of the due date, present when there is one), `due_days` (whole days left
/// until it), the time spent in total and in the running session, and the
/// entry and modification times. `urgency` is the score as text.
pub struct DetailText {
    pub id: Option<i64>,
    pub active: bool,
    pub task: TaskFields,
    pub due_short: String,
    pub due_long: Option<String>,
    pub due_days: i64,
    pub status: String,
    pub time_spent: i64,
    pub total_spent: i64,
    pub session_spent: i64,
    pub urgency: String,
    pub entered: String,
    pub modified: String,
    pub uuid: String,
    pub blocked_by: Vec<String>,
    pub blocking: Vec<String>,
    pub links: Vec<Link>,
    pub manual_files: Vec<String>,
    pub suggested_files: Vec<String>,
    pub comments: Vec<CommentRow>,
}

/// The panel's title.
pub open spec fn detail_title(d: DetailText) -> Seq<char> {
    " Task "@ + match d.id {
        Some(i) => int_to_decimal(i as int),
        None => "-"@,
    } + if d.active {
        "  ● ACTIVE"@
    } else {
        ""@
    } + " "@
}

pub open spec fn marker(selected: bool) -> Seq<char> {
    if selected {
        "› "@
    } else {
        "  "@
    }
}

/// The value a field shows.
pub open spec fn shown_value(d: DetailText, f: EditField) -> Seq<char> {
    if f == EditField::Due {
        d.due_short@
    } else {
        field_value(d.task, f)
    }
}

/// The line of the `i`-th editable field: a marker and the label (yellow
/// under the cursor), then the value; the priority in words and colour,
/// the due date coloured by how close it is.
pub open spec fn field_row(d: DetailText, i: int, selected: int, editing: bool) -> Seq<(Seq<char>, Tone)> {
    let f = field_order(i);
    let sel = !editing && i == selected;
    let v = if editing && i == selected {
        "…(editing below)"@
    } else if shown_value(d, f).len() == 0 {
        "-"@
    } else {
        shown_value(d, f)
    };
    let key_tone = if sel {
        Tone::WarnBold
    } else {
        Tone::Muted
    };
    let value = if f == EditField::Priority {
        match d.task.priority {
            Some(Priority::H) => ("High"@, Tone::Bad),
            Some(Priority::M) => ("Medium"@, Tone::Warn),
            Some(Priority::L) => ("Low"@, Tone::Good),
            None => ("-"@, Tone::Muted),
        }
    } else if f == EditField::Due {
        match d.due_long {
            Some(t) => (t@, if d.due_days < 0 {
                Tone::Bad
            } else if d.due_days <= 1 {
                Tone::Warn
            } else {
                Tone::Plain
            }),
            None => (v, Tone::Muted),
        }
    } else {
        (v, Tone::Plain)
    };
    seq![(marker(sel), key_tone), (pad_right_spec(field_label(f), 12), key_tone), value]
}

/// A read-only line: the label in grey, then the value.
pub open spec fn key_row(k: Seq<char>, v: Seq<char>, tone: Tone) -> Seq<(Seq<char>, Tone)> {
    seq![("  "@ + pad_right_spec(k, 12), Tone::Muted), (v, tone)]
}

/// The time spent: running (total and this session) for an active task.
pub open spec fn time_piece(d: DetailText) -> (Seq<char>, Tone) {
    if d.active {
        (
            duration_text(d.total_spent as int) + "  (running, this session "@ + duration_text(
                d.session_spent as int,
            ) + ")"@,
            Tone::Good,
        )
    } else if d.time_spent > 0 {
        (duration_text(d.time_spent as int), Tone::Plain)
    } else {
        ("-"@, Tone::Plain)
    }
}

/// A titled list: a blank line and the title, then the rows (nothing at
/// all when there are no rows).
pub open spec fn titled(title: Seq<char>, rows: Seq<Seq<(Seq<char>, Tone)>>) -> Seq<Seq<(Seq<char>, Tone)>> {
    if rows.len() == 0 {
        Seq::empty()
    } else {
        seq![Seq::empty(), seq![(title, Tone::AccentBold)]] + rows
    }
}

pub open spec fn plain_rows(xs: Seq<String>) -> Seq<Seq<(Seq<char>, Tone)>> {
    xs.map_values(|x: String| seq![("  "@ + x@, Tone::Plain)])
}

/// A link's line: its id, its label (bold under the cursor), and the URL
/// too when the label differs from it.
pub open spec fn link_row(l: Link, sel: bool) -> Seq<(Seq<char>, Tone)> {
    let shown = link_display(l.url@, opt_view(l.label));
    seq![
        (marker(sel) + "["@ + int_to_decimal(l.id as int) + "] "@, Tone::Muted),
        (shown, if sel {
            Tone::LinkBold
        } else {
            Tone::Link
        }),
    ] + if shown != l.url@ {
        seq![("  "@ + l.url@, Tone::Dim)]
    } else {
        Seq::empty()
    }
}

pub open spec fn link_rows(ls: Seq<Link>, selected: int, editing: bool) -> Seq<Seq<(Seq<char>, Tone)>> {
    Seq::new(ls.len(), |j: int| link_row(ls[j], !editing && selected == 5 + j))
}

/// The path of the file under the cursor, if the cursor is on a file.
pub open spec fn selected_path(d: DetailText, selected: int, editing: bool) -> Option<Seq<char>> {
    let base = 5 + d.links@.len();
    let m = d.manual_files@.len();
    let s = d.suggested_files@.len();
    if editing {
        None
    } else if base <= selected < base + m {
        Some(d.manual_files@[selected - base]@)
    } else if base + m <= selected < base + m + s {
        Some(d.suggested_files@[selected - base - m]@)
    } else {
        None
    }
}

/// A file's line: highlighted when it is the file under the cursor.
pub open spec fn file_nav_row(f: Seq<char>, here: Option<Seq<char>>, tone: Tone, bold: Tone) -> Seq<(Seq<char>, Tone)> {
    let sel = here == Some(f);
    seq![(marker(sel), Tone::Muted), (f, if sel {
        bold
    } else {
        tone
    })]
}

pub open spec fn file_rows(fs: Seq<String>, here: Option<Seq<char>>, tone: Tone, bold: Tone) -> Seq<Seq<(Seq<char>, Tone)>> {
    fs.map_values(|f: String| file_nav_row(f@, here, tone, bold))
}

pub open spec fn comment_rows(cs: Seq<CommentRow>) -> Seq<Seq<(Seq<char>, Tone)>> {
    cs.map_values(
        |c: CommentRow|
            seq![
                ("  ["@ + int_to_decimal(c.id as int) + "] "@, Tone::Muted),
                (c.date@ + "  "@, Tone::Muted),
                (c.text@, Tone::Plain),
            ],
    )
}

/// The main panel: the editable fields, the read-only ones, then the
/// blockers, the tasks blocked, the links, the files (chosen, then
/// suggested) and the comments.
pub open spec fn detail_body(d: DetailText, selected: int, editing: bool) -> Seq<Seq<(Seq<char>, Tone)>> {
    let here = selected_path(d, selected, editing);
    Seq::new(5, |i: int| field_row(d, i, selected, editing)) + seq![
        key_row("Status"@, d.status@, Tone::Plain),
        seq![("  "@ + pad_right_spec("Time spent"@, 12), Tone::Muted), time_piece(d)],
        key_row("Urgency"@, d.urgency@, Tone::Plain),
        key_row("Entered"@, d.entered@, Tone::Plain),
        key_row("Modified"@, d.modified@, Tone::Plain),
        key_row("UUID"@, d.uuid@, Tone::Plain),
    ] + titled("Blocked by"@, plain_rows(d.blocked_by@)) + titled("Blocking"@, plain_rows(d.blocking@))
        + titled("Links  (Enter to open)"@, link_rows(d.links@, selected, editing)) + titled(
        "Relevant files"@,
        file_rows(d.manual_files@, here, Tone::Accent, Tone::AccentBold),
    ) + titled(
        "Possible relevant files (suggested by AI)"@,
        file_rows(d.suggested_files@, here, Tone::MutedItalic, Tone::MutedItalicBold),
    ) + titled("Comments"@, comment_rows(d.comments@))
}

fn key_line(k: &str, v: &str, tone: Tone) -> (r: Vec<Piece>)
    ensures
        line_view(r) == key_row(k@, v@, tone),
{
    line2(cat("  ", pad_right(k, 12).as_str()), Tone::Muted, owned(v), tone)
}

fn marker_text(sel: bool) -> (r: String)
    ensures
        r@ == marker(sel),
{
    if sel {
        owned("› ")
    } else {
        owned("  ")
    }
}

fn field_line(d: &DetailText, i: usize, selected: usize, editing: bool) -> (r: Vec<Piece>)
    requires
        i < 5,
    ensures
        line_view(r) == field_row(*d, i as int, selected as int, editing),
{
    let f = edit_field(i);
    let sel = !editing && i == selected;
    let shown = if f == EditField::Due {
        owned(d.due_short.as_str())
    } else {
        current_value(&d.task, f)
    };
    let v = if editing && i == selected {
        owned("…(editing below)")
    } else if shown.unicode_len() == 0 {
        owned("-")
    } else {
        shown
    };
    let key_tone = if sel {
        Tone::WarnBold
    } else {
        Tone::Muted
    };
    let (text, tone) = if f == EditField::Priority {
        match d.task.priority {
            Some(Priority::H) => (owned("High"), Tone::Bad),
            Some(Priority::M) => (owned("Medium"), Tone::Warn),
            Some(Priority::L) => (owned("Low"), Tone::Good),
            None => (owned("-"), Tone::Muted),
        }
    } else if f == EditField::Due {
        match &d.due_long {
            Some(t) => (owned(t.as_str()), if d.due_days < 0 {
                Tone::Bad
            } else if d.due_days <= 1 {
                Tone::Warn
            } else {
                Tone::Plain
            }),
            None => (v, Tone::Muted),
        }
    } else {
        (v, Tone::Plain)
    };
    line3(marker_text(sel), key_tone, pad_right(f.label(), 12), key_tone, text, tone)
}

fn time_line(d: &DetailText) -> (r: Vec<Piece>)
    ensures
        line_view(r) == seq![("  "@ + pad_right_spec("Time spent"@, 12), Tone::Muted), time_piece(*d)],
{
    let (text, tone) = if d.active {
        let mut t = format_duration(d.total_spent);
        t.append("  (running, this session ");
        t.append(format_duration(d.session_spent).as_str());
        t.append(")");
        (t, Tone::Good)
    } else if d.time_spent > 0 {
        (format_duration(d.time_spent), Tone::Plain)
    } else {
        (owned("-"), Tone::Plain)
    };
    line2(cat("  ", pad_right("Time spent", 12).as_str()), Tone::Muted, text, tone)
}

/// A blank line and the title before `rows`, when there are rows.
fn titled_lines(title: &str, rows: Vec<Vec<Piece>>) -> (r: Vec<Vec<Piece>>)
    ensures
        lines_view(r@) == titled(title@, lines_view(rows@)),
{
    let mut out: Vec<Vec<Piece>> = Vec::new();
    if rows.len() == 0 {
        assert(lines_view(out@) =~= titled(title@, lines_view(rows@)));
        return out;
    }
    push_line(&mut out, blank_line());
    push_line(&mut out, line1(owned(title), Tone::AccentBold));
    append_lines(&mut out, rows);
    out
}

fn plain_lines(xs: &Vec<String>) -> (r: Vec<Vec<Piece>>)
    ensures
        lines_view(r@) == plain_rows(xs@),
{
    let mut out: Vec<Vec<Piece>> = Vec::new();
    let mut k: usize = 0;
    while k < xs.len()
        invariant
            k <= xs@.len(),
            lines_view(out@) == plain_rows(xs@.take(k as int)),
        decreases xs@.len() - k,
    {
        push_line(&mut out, line1(cat("  ", xs[k].as_str()), Tone::Plain));
        assert(xs@.take(k + 1) =~= xs@.take(k as int).push(xs@[k as int]));
        assert(plain_rows(xs@.take(k + 1)) =~= plain_rows(xs@.take(k as int)).push(
            seq![("  "@ + xs@[k as int]@, Tone::Plain)],
        ));
        k = k + 1;
    }
    assert(xs@.take(xs@.len() as int) =~= xs@);
    out
}

fn link_line(l: &Link, sel: bool) -> (r: Vec<Piece>)
    ensures
        line_view(r) == link_row(*l, sel),
{
    let shown = l.display();
    let mut head = marker_text(sel);
    head.append("[");
    head.append(fmt_i64(l.id).as_str());
    head.append("] ");
    let differs = !str_eq(shown.as_str(), l.url.as_str());
    let mut v = line2(head, Tone::Muted, shown, if sel {
        Tone::LinkBold
    } else {
        Tone::Link
    });
    if differs {
        let ghost before = line_view(v);
        v.push(Piece { text: cat("  ", l.url.as_str()), tone: Tone::Dim });
        assert(line_view(v) =~= before.push(("  "@ + l.url@, Tone::Dim)));
    }
    assert(line_view(v) =~= link_row(*l, sel));
    v
}

fn link_lines(ls: &Vec<Link>, selected: usize, editing: bool) -> (r: Vec<Vec<Piece>>)
    ensures
        lines_view(r@) == link_rows(ls@, selected as int, editing),
{
    let mut out: Vec<Vec<Piece>> = Vec::new();
    let mut j: usize = 0;
    while j < ls.len()
        invariant
            j <= ls@.len(),
            lines_view(out@) == link_rows(ls@, selected as int, editing).take(j as int),
        decreases ls@.len() - j,
    {
        let sel = !editing && selected >= 5 && selected - 5 == j;
        push_line(&mut out, link_line(&ls[j], sel));
        assert(link_rows(ls@, selected as int, editing).take(j + 1) =~= link_rows(
            ls@,
            selected as int,
            editing,
        ).take(j as int).push(link_row(ls@[j as int], sel)));
        j = j + 1;
    }
    assert(link_rows(ls@, selected as int, editing).take(ls@.len() as int) =~= link_rows(
        ls@,
        selected as int,
        editing,
    ));
    out
}

fn opt_str_is(here: &Option<String>, f: &str) -> (r: bool)
    ensures
        r == (opt_view(*here) == Some(f@)),
{
    match here {
        Some(h) => str_eq(h.as_str(), f),
        None => false,
    }
}

fn file_lines(fs: &Vec<String>, here: &Option<String>, tone: Tone, bold: Tone) -> (r: Vec<Vec<Piece>>)
    ensures
        lines_view(r@) == file_rows(fs@, opt_view(*here), tone, bold),
{
    let mut out: Vec<Vec<Piece>> = Vec::new();
    let mut k: usize = 0;
    while k < fs.len()
        invariant
            k <= fs@.len(),
            lines_view(out@) == file_rows(fs@.take(k as int), opt_view(*here), tone, bold),
        decreases fs@.len() - k,
    {
        let sel = opt_str_is(here, fs[k].as_str());
        push_line(&mut out, line2(marker_text(sel), Tone::Muted, owned(fs[k].as_str()), if sel {
            bold
        } else {
            tone
        }));
        assert(fs@.take(k + 1) =~= fs@.take(k as int).push(fs@[k as int]));
        assert(file_rows(fs@.take(k + 1), opt_view(*here), tone, bold) =~= file_rows(
            fs@.take(k as int),
            opt_view(*here),
            tone,
            bold,
        ).push(file_nav_row(fs@[k as int]@, opt_view(*here), tone, bold)));
        k = k + 1;
    }
    assert(fs@.take(fs@.len() as int) =~= fs@);
    out
}

fn comment_lines(cs: &Vec<CommentRow>) -> (r: Vec<Vec<Piece>>)
    ensures
        lines_view(r@) == comment_rows(cs@),
{
    let mut out: Vec<Vec<Piece>> = Vec::new();
    let mut k: usize = 0;
    while k < cs.len()
        invariant
            k <= cs@.len(),
            lines_view(out@) == comment_rows(cs@.take(k as int)),
        decreases cs@.len() - k,
    {
        let c = &cs[k];
        let mut head = cat("  [", fmt_i64(c.id).as_str());
        head.append("] ");
        push_line(
            &mut out,
            line3(head, Tone::Muted, cat(c.date.as_str(), "  "), Tone::Muted, owned(c.text.as_str()), Tone::Plain),
        );
        assert(cs@.take(k + 1) =~= cs@.take(k as int).push(cs@[k as int]));
        assert(comment_rows(cs@.take(k + 1)) =~= comment_rows(cs@.take(k as int)).push(
            seq![
                ("  ["@ + int_to_decimal(cs@[k as int].id as int) + "] "@, Tone::Muted),
                (cs@[k as int].date@ + "  "@, Tone::Muted),
                (cs@[k as int].text@, Tone::Plain),
            ],
        ));
        k = k + 1;
    }
    assert(cs@.take(cs@.len() as int) =~= cs@);
    out
}

fn selected_file(d: &DetailText, selected: usize, editing: bool) -> (r: Option<String>)
    ensures
        opt_view(r) == selected_path(*d, selected as int, editing),
{
    if editing {
        return None;
    }
    if selected < 5 || selected - 5 < d.links.len() {
        return None;
    }
    let at = selected - 5 - d.links.len();
    if at < d.manual_files.len() {
        Some(owned(d.manual_files[at].as_str()))
    } else if at - d.manual_files.len() < d.suggested_files.len() {
        Some(owned(d.suggested_files[at - d.manual_files.len()].as_str()))
    } else {
        None
    }
}

/// The title and the lines of the main panel, with the cursor on focusable
/// item `selected` (the order of `focusables`) and the editor open or not.
pub fn detail_lines(d: &DetailText, selected: usize, editing: bool) -> (r: (String, Vec<Vec<Piece>>))
    ensures
        r.0@ == detail_title(*d),
        lines_view(r.1@) == detail_body(*d, selected as int, editing),
{
    let mut title = owned(" Task ");
    match d.id {
        Some(i) => title.append(fmt_i64(i).as_str()),
        None => title.append("-"),
    }
    if d.active {
        title.append("  ● ACTIVE");
    } else {
        title.append("");
    }
    title.append(" ");
    let mut out: Vec<Vec<Piece>> = Vec::new();
    let mut i: usize = 0;
    while i < 5
        invariant
            i <= 5,
            lines_view(out@) == Seq::new(i as nat, |k: int| field_row(*d, k, selected as int, editing)),
        decreases 5 - i,
    {
        push_line(&mut out, field_line(d, i, selected, editing));
        assert(Seq::new((i + 1) as nat, |k: int| field_row(*d, k, selected as int, editing)) =~= Seq::new(
            i as nat,
            |k: int| field_row(*d, k, selected as int, editing),
        ).push(field_row(*d, i as int, selected as int, editing)));
        i = i + 1;
    }
    let ghost fields = lines_view(out@);
    push_line(&mut out, key_line("Status", d.status.as_str(), Tone::Plain));
    push_line(&mut out, time_line(d));
    push_line(&mut out, key_line("Urgency", d.urgency.as_str(), Tone::Plain));
    push_line(&mut out, key_line("Entered", d.entered.as_str(), Tone::Plain));
    push_line(&mut out, key_line("Modified", d.modified.as_str(), Tone::Plain));
    push_line(&mut out, key_line("UUID", d.uuid.as_str(), Tone::Plain));
    let ghost fixed = lines_view(out@);
    append_lines(&mut out, titled_lines("Blocked by", plain_lines(&d.blocked_by)));
    append_lines(&mut out, titled_lines("Blocking", plain_lines(&d.blocking)));
    append_lines(&mut out, titled_lines("Links  (Enter to open)", link_lines(&d.links, selected, editing)));
    let here = selected_file(d, selected, editing);
    append_lines(
        &mut out,
        titled_lines("Relevant files", file_lines(&d.manual_files, &here, Tone::Accent, Tone::AccentBold)),
    );
    append_lines(
        &mut out,
        titled_lines(
            "Possible relevant files (suggested by AI)",
            file_lines(&d.suggested_files, &here, Tone::MutedItalic, Tone::MutedItalicBold),
        ),
    );
    append_lines(&mut out, titled_lines("Comments", comment_lines(&d.comments)));
    proof {
        reveal_strlit("");
        assert(fixed =~= Seq::new(5, |k: int| field_row(*d, k, selected as int, editing)) + seq![
            key_row("Status"@, d.status@, Tone::Plain),
            seq![("  "@ + pad_right_spec("Time spent"@, 12), Tone::Muted), time_piece(*d)],
            key_row("Urgency"@, d.urgency@, Tone::Plain),
            key_row("Entered"@, d.entered@, Tone::Plain),
            key_row("Modified"@, d.modified@, Tone::Plain),
            key_row("UUID"@, d.uuid@, Tone::Plain),
        ]);
    }
    assert(lines_view(out@) =~= detail_body(*d, selected as int, editing));
    (title, out)
}

/// Whatever the key, the cursor of the detail view ends on one of the items
/// on screen (when there are any).
pub proof fn lemma_detail_step_in_range(
    c: DetailCursor,
    items: Seq<Focusable>,
    key: DetailKey,
    text: Seq<char>,
    due_ok: bool,
)
    requires
        items.len() > 0,
    ensures
        detail_step(c, items, key, text, due_ok).0.selected < items.len(),
{
}

/// The priority after the caller carries out `a`.
pub open spec fn priority_after(p: Option<Priority>, a: DetailAction) -> Option<Priority> {
    match a {
        DetailAction::CyclePriority(forward) => if forward {
            next_priority(p)
        } else {
            prev_priority(p)
        },
        _ => p,
    }
}

/// On the priority field, → steps the priority forward (none, L, M, H,
/// none …) and ← steps it back, so ← after → (or → after ←) leaves it as it
/// was; neither key moves the cursor.
pub proof fn lemma_arrows_step_priority(
    c: DetailCursor,
    items: Seq<Focusable>,
    text: Seq<char>,
    due_ok: bool,
    p: Option<Priority>,
)
    requires
        !c.editing,
        field_under(items, clamped(c.selected, items.len())) == Some(EditField::Priority),
    ensures
        ({
            let right = detail_step(c, items, DetailKey::Right, text, due_ok);
            let left = detail_step(c, items, DetailKey::Left, text, due_ok);
            &&& priority_after(p, right.1) == next_priority(p)
            &&& priority_after(p, left.1) == prev_priority(p)
            &&& priority_after(priority_after(p, right.1), left.1) == p
            &&& priority_after(priority_after(p, left.1), right.1) == p
            &&& right.0.selected == left.0.selected
        }),
{
    lemma_priority_cycle(p);
}

} // verus!
