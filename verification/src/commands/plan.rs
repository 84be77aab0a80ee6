//! `plan import`: a whole task graph taken in at once. The tasks of a plan
//! name each other by local keys; this module decides what each task
//! keeps and which dependencies it gets.

use vstd::prelude::*;
use crate::commands::modify::clean_tags;
use crate::llm::RelevantFile;
use crate::model::{priority_named, Priority};
use crate::text::{owned, str_eq, trim, trim_spec, trimmed_nonblank, upper_of, views};

verus! {

/// One task of a plan, as the plan file gives it.
#[derive(Clone, Debug, Default)]
pub struct PlanTask {
    /// Local key used to wire dependencies within the plan.
    pub key: Option<String>,
    pub description: String,
    pub assignment: Option<String>,
    pub rationale: Option<String>,
    pub priority: Option<String>,
    pub tags: Vec<String>,
    pub steps: Vec<String>,
    pub acceptance: Vec<String>,
    pub findings: Vec<String>,
    pub constraints: Vec<String>,
    pub files: Vec<RelevantFile>,
    /// Local keys (or ids and uuids of existing tasks) the task depends on.
    pub depends_on: Vec<String>,
}

/// A plan: the project it goes to (the current one when absent) and its
/// tasks in order.
#[derive(Clone, Debug, Default)]
pub struct PlanInput {
    pub project: Option<String>,
    pub tasks: Vec<PlanTask>,
}

/// An optional text, trimmed, kept only when something is left.
pub open spec fn trimmed_opt(o: Option<Seq<char>>) -> Option<Seq<char>> {
    match o {
        Some(s) => if trim_spec(s).len() > 0 {
            Some(trim_spec(s))
        } else {
            None
        },
        None => None,
    }
}

pub open spec fn opt_view(o: Option<String>) -> Option<Seq<char>> {
    match o {
        Some(s) => Some(s@),
        None => None,
    }
}

pub fn trimmed_text(o: &Option<String>) -> (r: Option<String>)
    ensures
        opt_view(r) == trimmed_opt(opt_view(*o)),
{
    match o {
        Some(s) => {
            let t = trim(s.as_str());
            if t.unicode_len() > 0 {
                Some(owned(t))
            } else {
                None
            }
        },
        None => None,
    }
}

/// The priority a plan names, if it names one.
pub fn plan_priority(p: &Option<String>) -> (r: Option<Priority>)
    ensures
        r == match *p {
            Some(s) => priority_named(upper_of(s@)),
            None => None,
        },
{
    match p {
        Some(s) => Priority::from_name(s.as_str()),
        None => None,
    }
}

/// The files of a plan task that name a path, with the path trimmed.
pub open spec fn kept_files(fs: Seq<RelevantFile>) -> Seq<RelevantFile>
    decreases fs.len(),
{
    if fs.len() == 0 {
        fs
    } else {
        let r = kept_files(fs.drop_last());
        let f = fs.last();
        if trim_spec(f.path@).len() > 0 {
            r.push(f)
        } else {
            r
        }
    }
}

/// The paths of the kept files, trimmed; the other fields are carried over.
pub fn plan_files(fs: &Vec<RelevantFile>) -> (r: Vec<RelevantFile>)
    ensures
        r@.len() == kept_files(fs@).len(),
        forall|i: int|
            0 <= i < r@.len() ==> {
                let k = #[trigger] kept_files(fs@)[i];
                &&& r@[i].path@ == trim_spec(k.path@)
                &&& r@[i].reason == k.reason
                &&& r@[i].symbol == k.symbol
                &&& r@[i].line_start == k.line_start
                &&& r@[i].line_end == k.line_end
            },
{
    let mut out: Vec<RelevantFile> = Vec::new();
    let mut i: usize = 0;
    assert(fs@.take(0) =~= Seq::<RelevantFile>::empty());
    while i < fs.len()
        invariant
            i <= fs@.len(),
            out@.len() == kept_files(fs@.take(i as int)).len(),
            forall|j: int|
                0 <= j < out@.len() ==> {
                    let k = #[trigger] kept_files(fs@.take(i as int))[j];
                    &&& out@[j].path@ == trim_spec(k.path@)
                    &&& out@[j].reason == k.reason
                    &&& out@[j].symbol == k.symbol
                    &&& out@[j].line_start == k.line_start
                    &&& out@[j].line_end == k.line_end
                },
        decreases fs@.len() - i,
    {
        proof {
            assert(fs@.take(i + 1).drop_last() =~= fs@.take(i as int));
            assert(fs@.take(i + 1).last() == fs@[i as int]);
        }
        let f = &fs[i];
        let t = trim(f.path.as_str());
        if t.unicode_len() > 0 {
            out.push(
                RelevantFile {
                    path: owned(t),
                    reason: f.reason.clone(),
                    symbol: f.symbol.clone(),
                    line_start: f.line_start,
                    line_end: f.line_end,
                },
            );
        }
        i = i + 1;
    }
    assert(fs@.take(fs@.len() as int) =~= fs@);
    out
}

/// What one plan task becomes: its description, priority and tags, and the
/// non-blank assignment, rationale, steps, acceptance criteria, findings,
/// constraints and files, all trimmed.
pub struct PlannedTask {
    pub description: String,
    pub priority: Option<Priority>,
    pub tags: Vec<String>,
    pub assignment: Option<String>,
    pub rationale: Option<String>,
    pub steps: Vec<String>,
    pub acceptance: Vec<String>,
    pub findings: Vec<String>,
    pub constraints: Vec<String>,
    pub files: Vec<RelevantFile>,
}

pub fn planned_task(pt: &PlanTask) -> (r: PlannedTask)
    ensures
        r.description@ == pt.description@,
        r.priority == match pt.priority {
            Some(s) => priority_named(upper_of(s@)),
            None => None,
        },
        views(r.tags@) == views(pt.tags@),
        opt_view(r.assignment) == trimmed_opt(opt_view(pt.assignment)),
        opt_view(r.rationale) == trimmed_opt(opt_view(pt.rationale)),
        views(r.steps@) == trimmed_nonblank(views(pt.steps@)),
        views(r.acceptance@) == trimmed_nonblank(views(pt.acceptance@)),
        views(r.findings@) == trimmed_nonblank(views(pt.findings@)),
        views(r.constraints@) == trimmed_nonblank(views(pt.constraints@)),
        r.files@.len() == kept_files(pt.files@).len(),
        forall|i: int|
            0 <= i < r.files@.len() ==> (#[trigger] r.files@[i]).path@ == trim_spec(
                kept_files(pt.files@)[i].path@,
            ),
{
    let mut tags: Vec<String> = Vec::new();
    let mut i: usize = 0;
    while i < pt.tags.len()
        invariant
            i <= pt.tags@.len(),
            views(tags@) == views(pt.tags@.take(i as int)),
        decreases pt.tags@.len() - i,
    {
        let ghost before = views(tags@);
        tags.push(owned(pt.tags[i].as_str()));
        assert(views(tags@) =~= before.push(pt.tags@[i as int]@));
        assert(pt.tags@.take(i + 1) =~= pt.tags@.take(i as int).push(pt.tags@[i as int]));
        assert(views(pt.tags@.take(i + 1)) =~= views(pt.tags@.take(i as int)).push(pt.tags@[i as int]@));
        i = i + 1;
    }
    assert(pt.tags@.take(pt.tags@.len() as int) =~= pt.tags@);
    PlannedTask {
        description: owned(pt.description.as_str()),
        priority: plan_priority(&pt.priority),
        tags,
        assignment: trimmed_text(&pt.assignment),
        rationale: trimmed_text(&pt.rationale),
        steps: clean_tags(pt.steps.as_slice()),
        acceptance: clean_tags(pt.acceptance.as_slice()),
        findings: clean_tags(pt.findings.as_slice()),
        constraints: clean_tags(pt.constraints.as_slice()),
        files: plan_files(&pt.files),
    }
}

// ── wiring dependencies ───────────────────────────────────────────────────

/// What a dependency of a plan task points at: another task of the same
/// plan (by position), or an existing task named by id or uuid.
#[derive(Clone, Debug)]
pub enum DepTarget {
    Planned(usize),
    Existing(String),
}

/// The keys of a plan's tasks.
pub open spec fn plan_keys(ts: Seq<PlanTask>) -> Seq<Option<Seq<char>>> {
    ts.map_values(|t: PlanTask| opt_view(t.key))
}

/// The last task of the plan carrying key `k` (a later task with the same
/// key takes the key over).
pub open spec fn key_owner(keys: Seq<Option<Seq<char>>>, k: Seq<char>) -> Option<int>
    decreases keys.len(),
{
    if keys.len() == 0 {
        None
    } else if keys.last() == Some(k) {
        Some(keys.len() - 1)
    } else {
        key_owner(keys.drop_last(), k)
    }
}

proof fn lemma_key_owner(keys: Seq<Option<Seq<char>>>, k: Seq<char>)
    ensures
        match key_owner(keys, k) {
            Some(j) => 0 <= j < keys.len() && keys[j] == Some(k) && forall|m: int|
                j < m < keys.len() ==> keys[m] != Some(k),
            None => forall|m: int| 0 <= m < keys.len() ==> keys[m] != Some(k),
        },
    decreases keys.len(),
{
    if keys.len() > 0 && keys.last() != Some(k) {
        let d = keys.drop_last();
        lemma_key_owner(d, k);
        assert forall|m: int| 0 <= m < keys.len() - 1 implies keys[m] == d[m] by {}
        assert(keys[keys.len() - 1] != Some(k));
    }
}

/// The dependency each named key of task `t` gets, given the plan's keys.
pub open spec fn dep_edges(from: int, deps: Seq<Seq<char>>, keys: Seq<Option<Seq<char>>>) -> Seq<
    (int, Result<int, Seq<char>>),
> {
    deps.map_values(
        |d: Seq<char>|
            (
                from,
                match key_owner(keys, d) {
                    Some(j) => Ok(j),
                    None => Err(d),
                },
            ),
    )
}

/// All dependencies of a plan, task by task in order: a task with a key
/// wires each of its `depends_on` entries from the task owning that key;
/// an entry that is a key of the plan points at the task owning it,
/// any other entry at an existing task. Tasks without a key wire nothing.
pub open spec fn plan_edges(ts: Seq<PlanTask>) -> Seq<(int, Result<int, Seq<char>>)>
    decreases ts.len(),
{
    plan_edges_upto(ts, ts.len() as int)
}

pub open spec fn plan_edges_upto(ts: Seq<PlanTask>, n: int) -> Seq<(int, Result<int, Seq<char>>)>
    decreases n,
{
    if n <= 0 {
        Seq::empty()
    } else {
        let before = plan_edges_upto(ts, n - 1);
        let t = ts[n - 1];
        match t.key {
            Some(k) => match key_owner(plan_keys(ts), k@) {
                Some(from) => before + dep_edges(from, views(t.depends_on@), plan_keys(ts)),
                None => before,
            },
            None => before,
        }
    }
}

pub open spec fn edge_view(e: (usize, DepTarget)) -> (int, Result<int, Seq<char>>) {
    (
        e.0 as int,
        match e.1 {
            DepTarget::Planned(j) => Ok(j as int),
            DepTarget::Existing(s) => Err(s@),
        },
    )
}

pub open spec fn edges_view(es: Seq<(usize, DepTarget)>) -> Seq<(int, Result<int, Seq<char>>)> {
    es.map_values(|e: (usize, DepTarget)| edge_view(e))
}

fn opt_str_eq(a: &Option<String>, b: &str) -> (r: bool)
    ensures
        r == (opt_view(*a) == Some(b@)),
{
    match a {
        Some(s) => str_eq(s.as_str(), b),
        None => false,
    }
}

/// The last task carrying key `k`.
fn find_owner(ts: &Vec<PlanTask>, k: &str) -> (r: Option<usize>)
    ensures
        match key_owner(plan_keys(ts@), k@) {
            Some(j) => r == Some(j as usize) && 0 <= j < ts@.len(),
            None => r is None,
        },
{
    proof {
        lemma_key_owner(plan_keys(ts@), k@);
    }
    let ghost keys = plan_keys(ts@);
    assert(keys.take(keys.len() as int) =~= keys);
    let mut i: usize = ts.len();
    while i > 0
        invariant
            i <= ts@.len(),
            keys == plan_keys(ts@),
            key_owner(keys, k@) == key_owner(keys.take(i as int), k@),
        decreases i,
    {
        let ghost pre = keys.take(i as int);
        assert(pre.drop_last() =~= keys.take(i - 1));
        assert(pre.last() == opt_view(ts@[i - 1].key));
        if opt_str_eq(&ts[i - 1].key, k) {
            return Some(i - 1);
        }
        i = i - 1;
    }
    assert(keys.take(0) =~= Seq::<Option<Seq<char>>>::empty());
    None
}

/// The dependencies to add once every task of the plan exists, in order.
pub fn plan_dependencies(ts: &Vec<PlanTask>) -> (r: Vec<(usize, DepTarget)>)
    ensures
        edges_view(r@) == plan_edges(ts@),
{
    let mut out: Vec<(usize, DepTarget)> = Vec::new();
    let mut i: usize = 0;
    while i < ts.len()
        invariant
            i <= ts@.len(),
            edges_view(out@) == plan_edges_upto(ts@, i as int),
        decreases ts@.len() - i,
    {
        match &ts[i].key {
            Some(k) => {
                match find_owner(ts, k.as_str()) {
                    Some(from) => {
                        let deps = &ts[i].depends_on;
                        let ghost before = edges_view(out@);
                        let ghost want = dep_edges(from as int, views(deps@), plan_keys(ts@));
                        let mut d: usize = 0;
                        while d < deps.len()
                            invariant
                                d <= deps@.len(),
                                want == dep_edges(from as int, views(deps@), plan_keys(ts@)),
                                edges_view(out@) == before + want.take(d as int),
                            decreases deps@.len() - d,
                        {
                            let owner = find_owner(ts, deps[d].as_str());
                            let target = match owner {
                                Some(j) => DepTarget::Planned(j),
                                None => DepTarget::Existing(owned(deps[d].as_str())),
                            };
                            proof {
                                let dv = deps@[d as int]@;
                                match key_owner(plan_keys(ts@), dv) {
                                    Some(j) => {
                                        assert(0 <= j < ts@.len());
                                        assert(ts@.len() == ts.len());
                                        assert((j as usize) as int == j);
                                        assert(owner == Some(j as usize));
                                    },
                                    None => {
                                        assert(owner is None);
                                    },
                                }
                            }
                            let ghost e = (from, target);
                            let ghost old_out = out@;
                            out.push((from, target));
                            assert(out@ == old_out.push(e));
                            assert(edges_view(out@) =~= edges_view(old_out).push(edge_view(e)));
                            proof {
                                let dv = views(deps@)[d as int];
                                assert(dv == deps@[d as int]@);
                                assert(want[d as int] == (
                                    from as int,
                                    match key_owner(plan_keys(ts@), dv) {
                                        Some(j) => Ok(j),
                                        None => Err(dv),
                                    },
                                ));
                                assert(want.take(d + 1) =~= want.take(d as int).push(want[d as int]));
                                assert(edge_view(e) == want[d as int]);
                                assert(edges_view(out@) =~= before + want.take(d + 1));
                            }
                            d = d + 1;
                        }
                        assert(want.take(deps@.len() as int) =~= want);
                        assert(ts@[i as int].key == Some(*k));
                        assert(edges_view(out@) == plan_edges_upto(ts@, i + 1));
                    },
                    None => {
                        assert(edges_view(out@) == plan_edges_upto(ts@, i + 1));
                    },
                }
            },
            None => {
                assert(edges_view(out@) == plan_edges_upto(ts@, i + 1));
            },
        }
        i = i + 1;
    }
    out
}

/// Every dependency of a plan runs from a task of the plan, and one that
/// points into the plan points at a task of it.
pub proof fn lemma_plan_edges_in_range(ts: Seq<PlanTask>)
    ensures
        forall|k: int|
            0 <= k < plan_edges(ts).len() ==> {
                let e = #[trigger] plan_edges(ts)[k];
                &&& 0 <= e.0 < ts.len()
                &&& (e.1 matches Ok(j) ==> 0 <= j < ts.len())
            },
{
    lemma_plan_edges_upto_in_range(ts, ts.len() as int);
}

proof fn lemma_plan_edges_upto_in_range(ts: Seq<PlanTask>, n: int)
    requires
        n <= ts.len(),
    ensures
        forall|k: int|
            0 <= k < plan_edges_upto(ts, n).len() ==> {
                let e = #[trigger] plan_edges_upto(ts, n)[k];
                &&& 0 <= e.0 < ts.len()
                &&& (e.1 matches Ok(j) ==> 0 <= j < ts.len())
            },
    decreases n,
{
    if n > 0 {
        lemma_plan_edges_upto_in_range(ts, n - 1);
        let before = plan_edges_upto(ts, n - 1);
        let keys = plan_keys(ts);
        let t = ts[n - 1];
        match t.key {
            Some(k) => {
                lemma_key_owner(keys, k@);
                match key_owner(keys, k@) {
                    Some(from) => {
                        let de = dep_edges(from, views(t.depends_on@), keys);
                        assert forall|m: int| 0 <= m < de.len() implies {
                            let e = #[trigger] de[m];
                            &&& 0 <= e.0 < ts.len()
                            &&& (e.1 matches Ok(j) ==> 0 <= j < ts.len())
                        } by {
                            lemma_key_owner(keys, views(t.depends_on@)[m]);
                        }
                        assert forall|k2: int| 0 <= k2 < plan_edges_upto(ts, n).len() implies {
                            let e = #[trigger] plan_edges_upto(ts, n)[k2];
                            &&& 0 <= e.0 < ts.len()
                            &&& (e.1 matches Ok(j) ==> 0 <= j < ts.len())
                        } by {
                            if k2 < before.len() {
                                assert(plan_edges_upto(ts, n)[k2] == before[k2]);
                            } else {
                                assert(plan_edges_upto(ts, n)[k2] == de[k2 - before.len()]);
                            }
                        }
                    },
                    None => {},
                }
            },
            None => {},
        }
    }
}

} // verus!
