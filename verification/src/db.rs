//! The rules the task store applies to what it reads and writes: link
//! labels, dependency bookkeeping, display ids, anchors and the value
//! records that travel between the store and the commands.

use vstd::prelude::*;
use crate::commands::board::{topo_order, topo_order_spec};
use crate::dates::UtcTime;
use crate::graph::{edges_within, is_reachable, reachable_from, reaches, symmetric, symmetric_edges};
use crate::order::{sort_i64, sorted_i64};
use crate::model::{priority_label, status_name, Priority, Status, TaskFields};
use crate::text::{
    concat2, contains, find_spec, fmt_i64, has_prefix, int_to_decimal, is_ascii_digit, join,
    join_spec, owned, pieces, split_char, starts_with, str_eq, strip_prefix, strip_prefix_spec, trim,
    trim_spec, views,
};

verus! {

/// Source of a task file the user attached.
pub const SOURCE_MANUAL: &'static str = "manual";
/// Source of a task file the model suggested.
pub const SOURCE_SUGGESTED: &'static str = "suggested";
/// Kind of an ordinary checklist step.
pub const STEP_KIND_STEP: &'static str = "step";
/// Kind of an acceptance criterion.
pub const STEP_KIND_ACCEPTANCE: &'static str = "acceptance";
/// Kind of a plain comment.
pub const NOTE_KIND_COMMENT: &'static str = "comment";

// ── links ─────────────────────────────────────────────────────────────────

/// Does this look like a web URL rather than a file path?
pub open spec fn looks_like_url(s: Seq<char>) -> bool {
    let t = trim_spec(s);
    has_prefix(t, "http://"@) || has_prefix(t, "https://"@) || find_spec(t, "://"@) is Some
        || has_prefix(t, "www."@)
}

pub fn is_url(s: &str) -> (r: bool)
    ensures
        r == looks_like_url(s@),
{
    let t = trim(s);
    starts_with(t, "http://") || starts_with(t, "https://") || contains(t, "://") || starts_with(
        t,
        "www.",
    )
}

/// The non-empty pieces of `ps`, in order.
pub open spec fn nonempty_pieces(ps: Seq<Seq<char>>) -> Seq<Seq<char>>
    decreases ps.len(),
{
    if ps.len() == 0 {
        ps
    } else {
        let r = nonempty_pieces(ps.drop_last());
        if ps.last().len() > 0 {
            r.push(ps.last())
        } else {
            r
        }
    }
}

/// The leading run of ASCII digits of `s`.
pub open spec fn digit_prefix(s: Seq<char>) -> Seq<char>
    decreases s.len(),
{
    if s.len() > 0 && is_ascii_digit(s[0]) {
        seq![s[0]] + digit_prefix(s.drop_first())
    } else {
        Seq::empty()
    }
}

/// What follows the GitHub host in a URL, if it names one.
pub open spec fn github_path(url: Seq<char>) -> Option<Seq<char>> {
    if strip_prefix_spec(url, "https://github.com/"@) is Some {
        strip_prefix_spec(url, "https://github.com/"@)
    } else if strip_prefix_spec(url, "http://github.com/"@) is Some {
        strip_prefix_spec(url, "http://github.com/"@)
    } else {
        strip_prefix_spec(url, "github.com/"@)
    }
}

/// `PR #n · owner/repo` for a pull request URL, `Issue #n · owner/repo` for
/// an issue; nothing for other URLs.
pub open spec fn link_label(url: Seq<char>) -> Option<Seq<char>> {
    match github_path(url) {
        Some(rest) => {
            let parts = nonempty_pieces(pieces(rest, '/'));
            if parts.len() >= 4 {
                let num = digit_prefix(parts[3]);
                let tag = if parts[2] == "pull"@ {
                    Some("PR"@)
                } else if parts[2] == "issues"@ {
                    Some("Issue"@)
                } else {
                    None
                };
                match tag {
                    Some(t) => if num.len() > 0 {
                        Some(t + " #"@ + num + " · "@ + parts[0] + "/"@ + parts[1])
                    } else {
                        None
                    },
                    None => None,
                }
            } else {
                None
            }
        },
        None => None,
    }
}

fn nonempty_strings(v: Vec<String>) -> (r: Vec<String>)
    ensures
        views(r@) == nonempty_pieces(views(v@)),
{
    let mut out: Vec<String> = Vec::new();
    let mut i: usize = 0;
    assert(views(v@).take(0) =~= Seq::<Seq<char>>::empty());
    while i < v.len()
        invariant
            i <= v@.len(),
            views(out@) == nonempty_pieces(views(v@).take(i as int)),
        decreases v@.len() - i,
    {
        proof {
            assert(views(v@).take(i + 1).drop_last() =~= views(v@).take(i as int));
            assert(views(v@).take(i + 1).last() == v@[i as int]@);
        }
        if v[i].unicode_len() > 0 {
            let ghost before = out@;
            out.push(v[i].clone());
            assert(views(out@) =~= views(before).push(v@[i as int]@));
        }
        i = i + 1;
    }
    assert(views(v@).take(v@.len() as int) =~= views(v@));
    out
}

fn leading_digits(s: &str) -> (r: String)
    ensures
        r@ == digit_prefix(s@),
{
    let n = s.unicode_len();
    let mut k: usize = 0;
    assert(s@.skip(0) =~= s@);
    assert(s@.take(0) + digit_prefix(s@) =~= digit_prefix(s@));
    while k < n && '0' <= s.get_char(k) && s.get_char(k) <= '9'
        invariant
            n == s@.len(),
            k <= n,
            digit_prefix(s@) == s@.take(k as int) + digit_prefix(s@.skip(k as int)),
        decreases n - k,
    {
        proof {
            let rest = s@.skip(k as int);
            assert(rest[0] == s@[k as int]);
            assert(rest.drop_first() =~= s@.skip(k + 1));
            assert(s@.take(k + 1) =~= s@.take(k as int) + seq![s@[k as int]]);
        }
        k = k + 1;
    }
    proof {
        assert(s@.skip(0) =~= s@);
        let rest = s@.skip(k as int);
        if k < n {
            assert(rest[0] == s@[k as int]);
        }
        assert(digit_prefix(rest) =~= Seq::<char>::empty());
        assert(s@.take(k as int) + Seq::<char>::empty() =~= s@.take(k as int));
    }
    owned(s.substring_char(0, k))
}

/// Derive a readable label from GitHub pull request and issue URLs.
pub fn derive_link_label(url: &str) -> (r: Option<String>)
    ensures
        r matches Some(l) ==> link_label(url@) == Some(l@),
        r is None ==> link_label(url@) is None,
{
    proof {
        reveal_strlit("https://github.com/");
        reveal_strlit("http://github.com/");
        reveal_strlit("github.com/");
        reveal_strlit("pull");
        reveal_strlit("issues");
        reveal_strlit("PR");
        reveal_strlit("Issue");
    }
    let rest = match strip_prefix(url, "https://github.com/") {
        Some(r) => r,
        None => match strip_prefix(url, "http://github.com/") {
            Some(r) => r,
            None => match strip_prefix(url, "github.com/") {
                Some(r) => r,
                None => {
                    return None;
                },
            },
        },
    };
    let parts = nonempty_strings(split_char(rest, '/'));
    if parts.len() < 4 {
        return None;
    }
    assert(views(parts@)[3] == parts@[3]@);
    let num = leading_digits(parts[3].as_str());
    let kind = parts[2].as_str();
    let tag = if crate::text::str_eq(kind, "pull") {
        "PR"
    } else if crate::text::str_eq(kind, "issues") {
        "Issue"
    } else {
        return None;
    };
    if num.unicode_len() == 0 {
        return None;
    }
    let mut out = owned(tag);
    out.append(" #");
    out.append(num.as_str());
    out.append(" · ");
    out.append(parts[0].as_str());
    out.append("/");
    out.append(parts[1].as_str());
    proof {
        assert(views(parts@)[0] == parts@[0]@);
        assert(views(parts@)[1] == parts@[1]@);
        assert(views(parts@)[2] == parts@[2]@);
    }
    Some(out)
}

/// A link attached to a task.
#[derive(Clone, Debug)]
pub struct Link {
    pub id: i64,
    pub url: String,
    pub label: Option<String>,
    pub entry: UtcTime,
}

/// The label shown for a link: its own, else the derived one, else the URL.
pub open spec fn link_display(url: Seq<char>, label: Option<Seq<char>>) -> Seq<char> {
    match label {
        Some(l) => l,
        None => match link_label(url) {
            Some(d) => d,
            None => url,
        },
    }
}

/// The view of an optional string.
pub open spec fn opt_view(o: Option<String>) -> Option<Seq<char>> {
    match o {
        Some(s) => Some(s@),
        None => None,
    }
}

/// The label a link is shown and recorded under.
pub fn display_label(url: &str, label: Option<&str>) -> (r: String)
    ensures
        r@ == link_display(url@, match label { Some(l) => Some(l@), None => None }),
{
    match label {
        Some(l) => owned(l),
        None => match derive_link_label(url) {
            Some(d) => d,
            None => owned(url),
        },
    }
}

impl Link {
    /// A human-friendly display string (explicit label, else derived from URL).
    pub fn display(&self) -> (r: String)
        ensures
            r@ == link_display(self.url@, opt_view(self.label)),
    {
        match &self.label {
            Some(l) => display_label(self.url.as_str(), Some(l.as_str())),
            None => display_label(self.url.as_str(), None),
        }
    }
}

/// Link presence summary for a single task.
#[derive(Clone, Copy, Debug, Default, PartialEq, Eq, Structural)]
pub struct LinkFlags {
    /// Task has at least one link of any kind.
    pub any: bool,
    /// Task has at least one GitHub PR link.
    pub pr: bool,
}

/// A URL whose derived label marks a pull request.
pub open spec fn is_pr_url(url: Seq<char>) -> bool {
    link_label(url) matches Some(l) && has_prefix(l, "PR "@)
}

/// The link flags of a task holding links to `urls`.
pub fn link_flags(urls: &Vec<String>) -> (r: LinkFlags)
    ensures
        r.any == (urls@.len() > 0),
        r.pr == exists|k: int| 0 <= k < urls@.len() && is_pr_url(#[trigger] urls@[k]@),
{
    let mut flags = LinkFlags { any: false, pr: false };
    let mut i: usize = 0;
    while i < urls.len()
        invariant
            i <= urls@.len(),
            flags.any == (i > 0),
            flags.pr == exists|k: int| 0 <= k < i && is_pr_url(#[trigger] urls@[k]@),
        decreases urls@.len() - i,
    {
        let is_pr = match derive_link_label(urls[i].as_str()) {
            Some(l) => starts_with(l.as_str(), "PR "),
            None => false,
        };
        proof {
            reveal_strlit("PR ");
            assert(is_pr == is_pr_url(urls@[i as int]@));
        }
        flags = LinkFlags { any: true, pr: flags.pr || is_pr };
        i = i + 1;
    }
    flags
}

// ── dependencies ──────────────────────────────────────────────────────────

/// Dependency state of a single task, for at-a-glance list rendering.
#[derive(Clone, Debug, Default)]
pub struct DepInfo {
    /// Display IDs of the pending tasks that block the described one (sorted).
    pub blocked_by: Vec<i64>,
    /// How many pending tasks the described one is blocking.
    pub blocking: usize,
}

impl DepInfo {
    /// The record for a task blocked by `blocked_by` (in any order) and
    /// blocking `blocking` pending tasks.
    pub fn new(blocked_by: &Vec<i64>, blocking: usize) -> (r: DepInfo)
        ensures
            sorted_i64(r.blocked_by@),
            r.blocked_by@.to_multiset() == blocked_by@.to_multiset(),
            r.blocking == blocking,
    {
        DepInfo { blocked_by: sort_i64(blocked_by), blocking }
    }

    pub fn is_blocked(&self) -> (r: bool)
        ensures
            r == (self.blocked_by@.len() > 0),
    {
        self.blocked_by.len() > 0
    }
}

/// Would adding the edge `task -> new_dep` (task depends on new_dep) close a
/// cycle? It does exactly when `task` is already reachable from `new_dep`
/// along depends-on edges (`(task, dep)` pairs over task numbers `< n`).
pub fn would_create_cycle(n: usize, edges: &Vec<(usize, usize)>, task: usize, new_dep: usize) -> (r:
    bool)
    requires
        task < n,
        new_dep < n,
        edges_within(edges@, n as nat),
    ensures
        r == reaches(edges@, new_dep as int, task as int),
{
    is_reachable(n, edges, new_dep, task)
}

/// The dependency chain through `start`: the tasks connected to it by
/// dependency edges in either direction, blockers first (see `topo_order`);
/// empty when `start` stands alone.
pub fn chain_order(n: usize, edges: &Vec<(usize, usize)>, start: usize) -> (r: Vec<usize>)
    requires
        start < n,
        edges_within(edges@, n as nat),
    ensures
        r@.len() == 0 <==> forall|v: int| 0 <= v < n && v != start ==> !reaches(
            symmetric(edges@),
            start as int,
            v,
        ),
        r@.len() > 0 ==> exists|comp: Seq<usize>|
            {
                &&& forall|v: usize| #[trigger] comp.contains(v) <==> (v < n && reaches(
                    symmetric(edges@),
                    start as int,
                    v as int,
                ))
                &&& topo_order_spec(edges@, comp, r@)
            },
{
    let sym = symmetric_edges(edges);
    proof {
        assert forall|k: int| 0 <= k < sym@.len() implies (#[trigger] sym@[k]).0 < n && sym@[k].1 < n by {
            if k >= edges@.len() {
                let e = edges@[k - edges@.len()];
                assert(sym@[k] == (e.1, e.0));
            }
        }
    }
    let seen = reachable_from(n, &sym, start);
    let mut comp: Vec<usize> = Vec::new();
    let mut v: usize = 0;
    while v < n
        invariant
            v <= n,
            seen@.len() == n,
            forall|i: int, j: int| 0 <= i < j < comp@.len() ==> comp@[i] < comp@[j],
            forall|i: int| 0 <= i < comp@.len() ==> comp@[i] < v,
            forall|x: usize| x < v ==> (comp@.contains(x) <==> seen@[x as int]),
        decreases n - v,
    {
        if seen[v] {
            let ghost before = comp@;
            comp.push(v);
            proof {
                assert forall|x: usize| x < v + 1 implies (comp@.contains(x) <==> seen@[x as int]) by {
                    if x == v {
                        assert(comp@[comp@.len() - 1] == x);
                    } else if comp@.contains(x) {
                        let k = choose|k: int| 0 <= k < comp@.len() && comp@[k] == x;
                        assert(k < before.len());
                        assert(before[k] == x);
                    } else if seen@[x as int] {
                        let k = choose|k: int| 0 <= k < before.len() && before[k] == x;
                        assert(comp@[k] == x);
                    }
                }
            }
        }
        v = v + 1;
    }
    proof {
        crate::graph::lemma_reaches_refl(sym@, start as int);
        assert(comp@.contains(start));
        assert forall|x: usize| #[trigger] comp@.contains(x) <==> (x < n && reaches(
            sym@,
            start as int,
            x as int,
        )) by {
            if comp@.contains(x) {
                let k = choose|k: int| 0 <= k < comp@.len() && comp@[k] == x;
                assert(x < n);
            }
        }
        assert(comp@.no_duplicates()) by {
            assert forall|i: int, j: int| 0 <= i < comp@.len() && 0 <= j < comp@.len() && i != j implies comp@[i]
                != comp@[j] by {
                if i < j {
                    assert(comp@[i] < comp@[j]);
                } else {
                    assert(comp@[j] < comp@[i]);
                }
            }
        }
    }
    if comp.len() <= 1 {
        proof {
            assert forall|x: int| 0 <= x < n && x != start implies !reaches(sym@, start as int, x) by {
                if reaches(sym@, start as int, x) {
                    assert(comp@.contains(x as usize));
                    let k = choose|k: int| 0 <= k < comp@.len() && comp@[k] == x as usize;
                    let k2 = choose|k: int| 0 <= k < comp@.len() && comp@[k] == start;
                    assert(k == 0 && k2 == 0);
                }
            }
        }
        return Vec::new();
    }
    proof {
        let a = comp@[0];
        let b = comp@[1];
        assert(comp@.contains(a) && comp@.contains(b));
        assert(a != b);
        if a != start {
            assert(reaches(sym@, start as int, a as int));
        } else {
            assert(reaches(sym@, start as int, b as int));
        }
    }
    let out = topo_order(n, &comp, edges);
    proof {
        assert(comp@.to_set().contains(start));
        assert(out@.to_set().contains(start));
        assert(out@.contains(start));
    }
    out
}

// ── display ids ───────────────────────────────────────────────────────────

/// How many leading entries of `ids` read 1, 2, 3, …
pub open spec fn counting_prefix(ids: Seq<i64>, k: int) -> bool {
    0 <= k <= ids.len() && forall|j: int| 0 <= j < k ==> ids[j] == j + 1
}

/// The next display id, given the ids in use in ascending order: one past
/// the run `1, 2, 3, …` they start with.
pub fn next_display_id(ids: &Vec<i64>) -> (r: i64)
    requires
        ids@.len() < i64::MAX,
    ensures
        counting_prefix(ids@, r - 1),
        r - 1 < ids@.len() ==> ids@[r - 1] != r,
        (forall|i: int, j: int| 0 <= i < j < ids@.len() ==> ids@[i] < ids@[j]) && (forall|i: int|
            0 <= i < ids@.len() ==> ids@[i] >= 1) ==> (!ids@.contains(r)
            && forall|k: i64| 1 <= k < r ==> #[trigger] ids@.contains(k)),
{
    let mut next: i64 = 1;
    let mut i: usize = 0;
    while i < ids.len() && ids[i] == next
        invariant
            ids@.len() < i64::MAX,
            i <= ids@.len(),
            next == i + 1,
            counting_prefix(ids@, i as int),
        decreases ids@.len() - i,
    {
        next = next + 1;
        i = i + 1;
    }
    proof {
        if (forall|a: int, b: int| 0 <= a < b < ids@.len() ==> ids@[a] < ids@[b]) && (forall|a: int|
            0 <= a < ids@.len() ==> ids@[a] >= 1) {
            assert forall|k: i64| 1 <= k < next implies #[trigger] ids@.contains(k) by {
                assert(ids@[k - 1] == k);
            }
            if ids@.contains(next) {
                let w = choose|w: int| 0 <= w < ids@.len() && ids@[w] == next;
                if w < i {
                    assert(ids@[w] == w + 1);
                } else if w > i {
                    // ids@[i] > next - 1 = i and ids@[i] != next, so ids@[i] > next
                    assert(ids@[i as int] < ids@[w]);
                    if i > 0 {
                        assert(ids@[i - 1] < ids@[i as int]);
                    } else {
                        assert(ids@[0] >= 1);
                    }
                }
            }
        }
    }
    next
}

// ── estimates and text ────────────────────────────────────────────────────

/// Human-readable estimate: `{h}h`, `{h}h{m}m` from an hour on, else `{m}m`.
pub open spec fn estimate_text(mins: int) -> Seq<char> {
    if mins >= 60 {
        let h = mins / 60;
        let r = mins % 60;
        if r == 0 {
            int_to_decimal(h) + "h"@
        } else {
            int_to_decimal(h) + "h"@ + int_to_decimal(r) + "m"@
        }
    } else {
        int_to_decimal(mins) + "m"@
    }
}

pub fn fmt_estimate(mins: i64) -> (r: String)
    ensures
        r@ == estimate_text(mins as int),
{
    proof {
        reveal_strlit("h");
        reveal_strlit("m");
    }
    if mins >= 60 {
        let h = mins / 60;
        let r = mins % 60;
        let mut out = fmt_i64(h);
        out.append("h");
        if r != 0 {
            out.append(fmt_i64(r).as_str());
            out.append("m");
        }
        out
    } else {
        let mut out = fmt_i64(mins);
        out.append("m");
        out
    }
}

/// `Some(s)` unless `s` is blank.
pub fn non_empty(s: &str) -> (r: Option<String>)
    ensures
        trim_spec(s@).len() == 0 ==> r is None,
        trim_spec(s@).len() > 0 ==> (r matches Some(v) && v@ == s@),
{
    if trim(s).unicode_len() == 0 {
        None
    } else {
        Some(owned(s))
    }
}

/// `[id] description`, the label of a task in dependency lists (id 0 when
/// the task has none).
pub open spec fn task_label_text(id: Option<i64>, description: Seq<char>) -> Seq<char> {
    "["@ + int_to_decimal(
        match id {
            Some(i) => i as int,
            None => 0,
        },
    ) + "] "@ + description
}

pub fn task_label(id: Option<i64>, description: &str) -> (r: String)
    ensures
        r@ == task_label_text(id, description@),
{
    proof {
        reveal_strlit("[");
        reveal_strlit("] ");
    }
    let n = match id {
        Some(i) => i,
        None => 0,
    };
    let mut out = owned("[");
    out.append(fmt_i64(n).as_str());
    out.append("] ");
    out.append(description);
    out
}

// ── anchors ───────────────────────────────────────────────────────────────

/// A code anchor: a file (and optionally a symbol and line range) relevant
/// to a task.
#[derive(Clone, Debug)]
pub struct Anchor {
    pub path: String,
    pub source: String,
    pub reason: Option<String>,
    pub symbol: Option<String>,
    pub line_start: Option<i64>,
    pub line_end: Option<i64>,
}

/// ` :: symbol` when there is a symbol, then ` (a-b)` for a full line range
/// or ` (La)` for a start line alone.
pub open spec fn location_text(
    symbol: Option<Seq<char>>,
    line_start: Option<i64>,
    line_end: Option<i64>,
) -> Seq<char> {
    let sym = match symbol {
        Some(s) => " :: "@ + s,
        None => Seq::empty(),
    };
    let lines = match (line_start, line_end) {
        (Some(a), Some(b)) => " ("@ + int_to_decimal(a as int) + "-"@ + int_to_decimal(b as int)
            + ")"@,
        (Some(a), None) => " (L"@ + int_to_decimal(a as int) + ")"@,
        _ => Seq::empty(),
    };
    sym + lines
}

impl Anchor {
    /// Human-friendly location suffix, e.g. ` :: enrich_task (10-57)`.
    pub fn location(&self) -> (r: String)
        ensures
            r@ == location_text(opt_view(self.symbol), self.line_start, self.line_end),
    {
        proof {
            reveal_strlit(" :: ");
            reveal_strlit(" (");
            reveal_strlit("-");
            reveal_strlit(")");
            reveal_strlit(" (L");
        }
        let mut s = String::new();
        match &self.symbol {
            Some(sym) => {
                s.append(" :: ");
                s.append(sym.as_str());
            },
            None => {},
        }
        let ghost sym_part = s@;
        match (self.line_start, self.line_end) {
            (Some(a), Some(b)) => {
                s.append(" (");
                s.append(fmt_i64(a).as_str());
                s.append("-");
                s.append(fmt_i64(b).as_str());
                s.append(")");
            },
            (Some(a), None) => {
                s.append(" (L");
                s.append(fmt_i64(a).as_str());
                s.append(")");
            },
            _ => {},
        }
        assert(s@ =~= location_text(opt_view(self.symbol), self.line_start, self.line_end));
        s
    }
}

// ── search ────────────────────────────────────────────────────────────────

/// `s` with every `"` doubled.
pub open spec fn double_quotes(s: Seq<char>) -> Seq<char>
    decreases s.len(),
{
    if s.len() == 0 {
        s
    } else if s.last() == '"' {
        double_quotes(s.drop_last()) + seq!['"', '"']
    } else {
        double_quotes(s.drop_last()).push(s.last())
    }
}

/// The query quoted as an FTS5 string literal, so any input is safe to match.
pub fn fts_literal(query: &str) -> (r: String)
    ensures
        r@ == seq!['"'] + double_quotes(query@) + seq!['"'],
{
    let mut out = String::new();
    crate::text::push_char(&mut out, '"');
    let n = query.unicode_len();
    let mut i: usize = 0;
    assert(query@.take(0) =~= Seq::<char>::empty());
    while i < n
        invariant
            n == query@.len(),
            i <= n,
            out@ == seq!['"'] + double_quotes(query@.take(i as int)),
        decreases n - i,
    {
        let c = query.get_char(i);
        assert(query@.take(i + 1).drop_last() =~= query@.take(i as int));
        crate::text::push_char(&mut out, c);
        if c == '"' {
            crate::text::push_char(&mut out, '"');
        }
        assert(out@ =~= seq!['"'] + double_quotes(query@.take(i + 1)));
        i = i + 1;
    }
    assert(query@.take(n as int) =~= query@);
    crate::text::push_char(&mut out, '"');
    out
}

// ── value records ─────────────────────────────────────────────────────────

/// One checklist step (or acceptance criterion) of a task.
#[derive(Clone, Debug)]
pub struct ChecklistItem {
    pub id: i64,
    pub text: String,
    pub done: bool,
    pub position: i64,
    /// What the step does, in full (absent for older items).
    pub intent: Option<String>,
    /// `step` or `acceptance` (a definition-of-done criterion).
    pub kind: String,
    /// `human` or `ai`.
    pub source: String,
    /// Command that verifies this step.
    pub verify_cmd: Option<String>,
    /// Outcome recorded when the step was marked done.
    pub result: Option<String>,
    /// Commit the step was completed at.
    pub done_commit: Option<String>,
    pub done_at: Option<String>,
}

/// Counts that summarize a project's tasks.
#[derive(Clone, Copy, Debug, Default, PartialEq, Eq, Structural)]
pub struct ProjectStats {
    pub pending: u32,
    pub active: u32,
    pub completed_total: u32,
    pub high: u32,
    pub medium: u32,
    pub low: u32,
    pub no_pri: u32,
    pub overdue: u32,
    pub due_today: u32,
    pub due_week: u32,
}

/// The guide fields a task carries besides its steps.
#[derive(Clone, Debug, Default)]
pub struct TaskGuideFields {
    pub assignment: Option<String>,
    pub rationale: Option<String>,
    pub validated_commit: Option<String>,
    pub validated_at: Option<String>,
    pub meta_json: Option<String>,
}

/// One keyword-search match.
#[derive(Clone, Debug)]
pub struct SearchHit {
    pub ref_kind: String,
    pub task_uuid: String,
    pub text: String,
}

/// A project's setup/test/lint/run commands.
#[derive(Clone, Debug, Default)]
pub struct ProjectCommands {
    pub setup_cmd: Option<String>,
    pub test_cmd: Option<String>,
    pub lint_cmd: Option<String>,
    pub run_cmd: Option<String>,
}

/// Non-secret GitHub sync settings of a project: the repository, the login
/// (a user name, never a token) and the sync scope.
#[derive(Clone, Debug, Default)]
pub struct GithubSyncSettings {
    pub repo: Option<String>,
    pub login: Option<String>,
    pub scope: Option<String>,
}

/// The id of the `index`-th step (1-based) among `ids`; `None` for index 0
/// or past the last step.
pub fn step_at_index(ids: &Vec<i64>, index: usize) -> (r: Option<i64>)
    ensures
        index == 0 ==> r is None,
        1 <= index <= ids@.len() ==> r == Some(ids@[index - 1]),
        index > ids@.len() ==> r is None,
{
    if index == 0 {
        return None;
    }
    let k = index - 1;
    if k < ids.len() {
        Some(ids[k])
    } else {
        None
    }
}

// ── dependency state of every task ────────────────────────────────────────

/// The display ids of the pending tasks that task `t` waits on, edge by
/// edge (`(task, dep)` pairs; blockers without an id are left out).
pub open spec fn blocker_ids(edges: Seq<(usize, usize)>, pending: Seq<bool>, ids: Seq<Option<i64>>, t: usize) -> Seq<i64>
    decreases edges.len(),
{
    if edges.len() == 0 {
        Seq::empty()
    } else {
        let rest = blocker_ids(edges.drop_last(), pending, ids, t);
        let e = edges.last();
        if e.0 == t && pending[e.1 as int] && ids[e.1 as int] is Some {
            rest.push(ids[e.1 as int]->0)
        } else {
            rest
        }
    }
}

/// How many pending tasks wait on task `t`.
pub open spec fn blocking_count(edges: Seq<(usize, usize)>, pending: Seq<bool>, t: usize) -> nat
    decreases edges.len(),
{
    if edges.len() == 0 {
        0
    } else {
        let e = edges.last();
        blocking_count(edges.drop_last(), pending, t) + if e.1 == t && pending[e.0 as int] {
            1nat
        } else {
            0nat
        }
    }
}

proof fn lemma_blocking_count_le(edges: Seq<(usize, usize)>, pending: Seq<bool>, t: usize)
    ensures
        blocking_count(edges, pending, t) <= edges.len(),
    decreases edges.len(),
{
    if edges.len() > 0 {
        lemma_blocking_count_le(edges.drop_last(), pending, t);
    }
}

/// The dependency state of each of the tasks `0..n`: the sorted display
/// ids of its pending blockers and how many pending tasks it blocks.
pub fn dep_info_by_task(n: usize, edges: &Vec<(usize, usize)>, pending: &Vec<bool>, ids: &Vec<Option<i64>>) -> (r: Vec<DepInfo>)
    requires
        edges_within(edges@, n as nat),
        pending@.len() == n,
        ids@.len() == n,
    ensures
        r@.len() == n,
        forall|t: int|
            0 <= t < n ==> {
                &&& sorted_i64((#[trigger] r@[t]).blocked_by@)
                &&& r@[t].blocked_by@.to_multiset() == blocker_ids(edges@, pending@, ids@, t as usize).to_multiset()
                &&& r@[t].blocking == blocking_count(edges@, pending@, t as usize)
            },
{
    let mut out: Vec<DepInfo> = Vec::new();
    let mut t: usize = 0;
    while t < n
        invariant
            t <= n,
            edges_within(edges@, n as nat),
            pending@.len() == n,
            ids@.len() == n,
            out@.len() == t,
            forall|u: int|
                0 <= u < t ==> {
                    &&& sorted_i64((#[trigger] out@[u]).blocked_by@)
                    &&& out@[u].blocked_by@.to_multiset() == blocker_ids(edges@, pending@, ids@, u as usize).to_multiset()
                    &&& out@[u].blocking == blocking_count(edges@, pending@, u as usize)
                },
        decreases n - t,
    {
        let mut blocked: Vec<i64> = Vec::new();
        let mut count: usize = 0;
        let mut k: usize = 0;
        while k < edges.len()
            invariant
                t < n,
                k <= edges@.len(),
                edges_within(edges@, n as nat),
                pending@.len() == n,
                ids@.len() == n,
                blocked@ == blocker_ids(edges@.take(k as int), pending@, ids@, t),
                count == blocking_count(edges@.take(k as int), pending@, t),
            decreases edges@.len() - k,
        {
            proof {
                assert(edges@.take(k + 1).drop_last() =~= edges@.take(k as int));
                assert(edges@.take(k + 1).last() == edges@[k as int]);
                lemma_blocking_count_le(edges@.take(k as int), pending@, t);
            }
            let (a, b) = edges[k];
            if a == t && pending[b] {
                match ids[b] {
                    Some(id) => blocked.push(id),
                    None => {},
                }
            }
            if b == t && pending[a] {
                count = count + 1;
            }
            k = k + 1;
        }
        assert(edges@.take(edges@.len() as int) =~= edges@);
        out.push(DepInfo::new(&blocked, count));
        t = t + 1;
    }
    out
}

/// The display ids the pending tasks get after one is completed or
/// deleted, taken in order of entry: `1, 2, …, n`.
pub fn repacked_ids(n: usize) -> (r: Vec<i64>)
    requires
        n < i64::MAX,
    ensures
        r@.len() == n,
        forall|i: int| 0 <= i < n ==> r@[i] == i + 1,
{
    let mut out: Vec<i64> = Vec::new();
    let mut i: usize = 0;
    while i < n
        invariant
            i <= n,
            n < i64::MAX,
            out@.len() == i,
            forall|k: int| 0 <= k < i ==> out@[k] == k + 1,
        decreases n - i,
    {
        out.push((i + 1) as i64);
        i = i + 1;
    }
    out
}

/// After repacking, the next new task gets the id one past the last.
pub proof fn lemma_next_after_repack(ids: Seq<i64>, next: i64)
    requires
        forall|i: int| 0 <= i < ids.len() ==> ids[i] == i + 1,
        counting_prefix(ids, next - 1),
        next - 1 < ids.len() ==> ids[next - 1] != next,
    ensures
        next == ids.len() + 1,
{
}

// ── the history of a task ─────────────────────────────────────────────────

/// What the history follows of a task. `due_local` is its due date as the
/// local date (none without one); `running` says whether its timer runs.
pub struct TrackedTask {
    pub fields: TaskFields,
    pub status: Status,
    pub due_local: Option<String>,
    pub estimate_mins: Option<i64>,
    pub recur: Option<String>,
    pub running: bool,
}

pub open spec fn blank_to_none(s: Seq<char>) -> Option<Seq<char>> {
    if trim_spec(s).len() == 0 {
        None
    } else {
        Some(s)
    }
}

/// The followed fields, in order, each with its value as history shows it
/// (none for a blank or absent value).
pub open spec fn tracked_spec(t: TrackedTask) -> Seq<(Seq<char>, Option<Seq<char>>)> {
    seq![
        ("description"@, blank_to_none(t.fields.description@)),
        ("project"@, blank_to_none(t.fields.project@)),
        ("status"@, Some(status_name(t.status))),
        ("priority"@, match t.fields.priority {
            Some(p) => Some(priority_label(p)),
            None => None,
        }),
        ("due"@, opt_view(t.due_local)),
        ("tags"@, if t.fields.tags@.len() == 0 {
            None
        } else {
            Some(join_spec(views(t.fields.tags@), ", "@))
        }),
        ("estimate"@, match t.estimate_mins {
            Some(m) => Some(estimate_text(m as int)),
            None => None,
        }),
        ("recur"@, opt_view(t.recur)),
        ("timer"@, if t.running {
            Some("running"@)
        } else {
            None
        }),
    ]
}

pub open spec fn tracked_view(v: Seq<(String, Option<String>)>) -> Seq<(Seq<char>, Option<Seq<char>>)> {
    v.map_values(|p: (String, Option<String>)| (p.0@, opt_view(p.1)))
}

fn push_tracked(out: &mut Vec<(String, Option<String>)>, name: &str, value: Option<String>)
    ensures
        tracked_view(final(out)@) == tracked_view(old(out)@).push((name@, opt_view(value))),
{
    let ghost v = opt_view(value);
    out.push((owned(name), value));
    assert(tracked_view(out@) =~= tracked_view(old(out)@).push((name@, v)));
}

/// The followed fields of a task with their values.
pub fn tracked_values(t: &TrackedTask) -> (r: Vec<(String, Option<String>)>)
    ensures
        tracked_view(r@) == tracked_spec(*t),
{
    let mut out: Vec<(String, Option<String>)> = Vec::new();
    push_tracked(&mut out, "description", non_empty(t.fields.description.as_str()));
    push_tracked(&mut out, "project", non_empty(t.fields.project.as_str()));
    push_tracked(&mut out, "status", Some(owned(t.status.as_str())));
    push_tracked(&mut out, "priority", match t.fields.priority {
        Some(p) => Some(owned(p.label())),
        None => None,
    });
    push_tracked(&mut out, "due", match &t.due_local {
        Some(d) => Some(owned(d.as_str())),
        None => None,
    });
    push_tracked(&mut out, "tags", if t.fields.tags.len() == 0 {
        None
    } else {
        Some(join(&t.fields.tags, ", "))
    });
    push_tracked(&mut out, "estimate", match t.estimate_mins {
        Some(m) => Some(fmt_estimate(m)),
        None => None,
    });
    push_tracked(&mut out, "recur", match &t.recur {
        Some(r) => Some(owned(r.as_str())),
        None => None,
    });
    push_tracked(&mut out, "timer", if t.running {
        Some(owned("running"))
    } else {
        None
    });
    assert(tracked_view(out@) =~= tracked_spec(*t));
    out
}

/// A change history records: the field, its value before and after.
pub struct FieldChange {
    pub field: String,
    pub old_value: Option<String>,
    pub new_value: Option<String>,
}

pub open spec fn change_view(c: FieldChange) -> (Seq<char>, Option<Seq<char>>, Option<Seq<char>>) {
    (c.field@, opt_view(c.old_value), opt_view(c.new_value))
}

/// The fields among the first `n` whose values differ, in order, with both
/// values.
pub open spec fn changes_upto(
    a: Seq<(Seq<char>, Option<Seq<char>>)>,
    b: Seq<(Seq<char>, Option<Seq<char>>)>,
    n: int,
) -> Seq<(Seq<char>, Option<Seq<char>>, Option<Seq<char>>)>
    decreases n,
{
    if n <= 0 {
        Seq::empty()
    } else {
        let r = changes_upto(a, b, n - 1);
        if a[n - 1].1 != b[n - 1].1 {
            r.push((a[n - 1].0, a[n - 1].1, b[n - 1].1))
        } else {
            r
        }
    }
}

fn opt_str_same(a: &Option<String>, b: &Option<String>) -> (r: bool)
    ensures
        r == (opt_view(*a) == opt_view(*b)),
{
    match (a, b) {
        (Some(x), Some(y)) => str_eq(x.as_str(), y.as_str()),
        (None, None) => true,
        _ => false,
    }
}

fn opt_copy(a: &Option<String>) -> (r: Option<String>)
    ensures
        opt_view(r) == opt_view(*a),
{
    match a {
        Some(x) => Some(owned(x.as_str())),
        None => None,
    }
}

/// What the history records when a task changes from `old` to `new`: one
/// entry per followed field whose value differs.
pub fn field_changes(old: &TrackedTask, new: &TrackedTask) -> (r: Vec<FieldChange>)
    ensures
        r@.map_values(|c: FieldChange| change_view(c)) == changes_upto(tracked_spec(*old), tracked_spec(*new), 9),
{
    let a = tracked_values(old);
    let b = tracked_values(new);
    let mut out: Vec<FieldChange> = Vec::new();
    let mut i: usize = 0;
    assert(tracked_view(a@).len() == a@.len());
    assert(tracked_view(b@).len() == b@.len());
    while i < 9
        invariant
            i <= 9,
            a@.len() == 9,
            b@.len() == 9,
            tracked_view(a@) == tracked_spec(*old),
            tracked_view(b@) == tracked_spec(*new),
            out@.map_values(|c: FieldChange| change_view(c)) == changes_upto(tracked_spec(*old), tracked_spec(*new), i as int),
        decreases 9 - i,
    {
        proof {
            assert(tracked_view(a@)[i as int] == (a@[i as int].0@, opt_view(a@[i as int].1)));
            assert(tracked_view(b@)[i as int] == (b@[i as int].0@, opt_view(b@[i as int].1)));
        }
        if !opt_str_same(&a[i].1, &b[i].1) {
            let ghost before = out@;
            let c = FieldChange { field: owned(a[i].0.as_str()), old_value: opt_copy(&a[i].1), new_value: opt_copy(&b[i].1) };
            let ghost cv = change_view(c);
            out.push(c);
            assert(out@.map_values(|c: FieldChange| change_view(c)) =~= before.map_values(|c: FieldChange| change_view(c)).push(cv));
        }
        i = i + 1;
    }
    out
}

/// A task that did not change records nothing, and every recorded change
/// has different values before and after.
pub proof fn lemma_changes_differ(a: Seq<(Seq<char>, Option<Seq<char>>)>, b: Seq<(Seq<char>, Option<Seq<char>>)>, n: int)
    ensures
        a == b ==> changes_upto(a, b, n).len() == 0,
        forall|k: int| 0 <= k < changes_upto(a, b, n).len() ==> #[trigger] changes_upto(a, b, n)[k].1 != changes_upto(a, b, n)[k].2,
    decreases n,
{
    if n > 0 {
        lemma_changes_differ(a, b, n - 1);
        let p = changes_upto(a, b, n - 1);
        let c = changes_upto(a, b, n);
        assert forall|k: int| 0 <= k < c.len() implies #[trigger] c[k].1 != c[k].2 by {
            if k < p.len() {
                assert(c[k] == p[k]);
                assert(p[k].1 != p[k].2);
            }
        }
    }
}

/// The positions `0..n` reachable from `start` along `edges`, ascending.
fn reachable_list(n: usize, edges: &Vec<(usize, usize)>, start: usize) -> (r: Vec<usize>)
    requires
        start < n,
        edges_within(edges@, n as nat),
    ensures
        forall|x: usize| #[trigger] r@.contains(x) <==> (x < n && reaches(edges@, start as int, x as int)),
        r@.no_duplicates(),
        forall|i: int| 0 <= i < r@.len() ==> r@[i] < n,
{
    let seen = reachable_from(n, edges, start);
    let mut out: Vec<usize> = Vec::new();
    let mut v: usize = 0;
    while v < n
        invariant
            v <= n,
            seen@.len() == n,
            forall|i: int, j: int| 0 <= i < j < out@.len() ==> out@[i] < out@[j],
            forall|i: int| 0 <= i < out@.len() ==> out@[i] < v,
            forall|x: usize| x < v ==> (out@.contains(x) <==> seen@[x as int]),
        decreases n - v,
    {
        if seen[v] {
            let ghost before = out@;
            out.push(v);
            proof {
                assert forall|x: usize| x < v + 1 implies (out@.contains(x) <==> seen@[x as int]) by {
                    if x == v {
                        assert(out@[out@.len() - 1] == x);
                    } else if out@.contains(x) {
                        let k = choose|k: int| 0 <= k < out@.len() && out@[k] == x;
                        assert(before[k] == x);
                    } else if seen@[x as int] {
                        let k = choose|k: int| 0 <= k < before.len() && before[k] == x;
                        assert(out@[k] == x);
                    }
                }
            }
        }
        v = v + 1;
    }
    proof {
        assert forall|x: usize| #[trigger] out@.contains(x) <==> (x < n && reaches(edges@, start as int, x as int)) by {
            if out@.contains(x) {
                let k = choose|k: int| 0 <= k < out@.len() && out@[k] == x;
            }
        }
        assert forall|i: int, j: int| 0 <= i < out@.len() && 0 <= j < out@.len() && i != j implies out@[i] != out@[j] by {
            if i < j {
                assert(out@[i] < out@[j]);
            } else {
                assert(out@[j] < out@[i]);
            }
        }
    }
    out
}

/// What `start` depends on, directly or through other tasks, together with
/// `start` itself, blockers first (see `topo_order`): the briefing order.
pub fn dependency_closure(n: usize, edges: &Vec<(usize, usize)>, start: usize) -> (r: Vec<usize>)
    requires
        start < n,
        edges_within(edges@, n as nat),
    ensures
        exists|members: Seq<usize>|
            {
                &&& forall|v: usize| #[trigger] members.contains(v) <==> (v < n && reaches(
                    edges@,
                    start as int,
                    v as int,
                ))
                &&& topo_order_spec(edges@, members, r@)
            },
{
    let members = reachable_list(n, edges, start);
    topo_order(n, &members, edges)
}

// ── link labels of GitHub pull requests and issues ────────────────────────

proof fn lemma_digit_prefix_all(n: Seq<char>)
    requires
        forall|i: int| 0 <= i < n.len() ==> is_ascii_digit(#[trigger] n[i]),
    ensures
        digit_prefix(n) == n,
    decreases n.len(),
{
    if n.len() > 0 {
        let rest = n.drop_first();
        assert(forall|i: int| 0 <= i < rest.len() ==> rest[i] == n[i + 1]);
        lemma_digit_prefix_all(rest);
        assert(seq![n[0]] + rest =~= n);
    }
}

proof fn lemma_github_path_of(p: Seq<char>, rest: Seq<char>)
    requires
        p == "https://github.com/"@ || p == "http://github.com/"@ || p == "github.com/"@,
    ensures
        github_path(p + rest) == Some(rest),
{
    reveal_strlit("https://github.com/");
    reveal_strlit("http://github.com/");
    reveal_strlit("github.com/");
    let u = p + rest;
    assert(u.subrange(0, p.len() as int) =~= p);
    assert(u.subrange(p.len() as int, u.len() as int) =~= rest);
    if p != "https://github.com/"@ {
        assert(!has_prefix(u, "https://github.com/"@)) by {
            if has_prefix(u, "https://github.com/"@) {
                assert(u.subrange(0, 19)[0] == "https://github.com/"@[0]);
                assert(u.subrange(0, 19)[4] == "https://github.com/"@[4]);
                assert(u[0] == p[0]);
                assert(u[4] == p[4]);
            }
        }
    }
    if p == "github.com/"@ {
        assert(!has_prefix(u, "http://github.com/"@)) by {
            if has_prefix(u, "http://github.com/"@) {
                assert(u.subrange(0, 18)[0] == "http://github.com/"@[0]);
                assert(u[0] == p[0]);
            }
        }
    }
}

proof fn lemma_four_pieces(o: Seq<char>, r: Seq<char>, k: Seq<char>, n: Seq<char>)
    requires
        !o.contains('/'),
        !r.contains('/'),
        !k.contains('/'),
        !n.contains('/'),
    ensures
        pieces(o + "/"@ + r + "/"@ + k + "/"@ + n, '/') == seq![o, r, k, n],
{
    reveal_strlit("/");
    assert("/"@ =~= seq!['/']);
    crate::text::lemma_pieces_whole(o, '/');
    crate::text::lemma_pieces_whole(r, '/');
    crate::text::lemma_pieces_whole(k, '/');
    crate::text::lemma_pieces_whole(n, '/');
    crate::text::lemma_pieces_concat(o, r, '/');
    crate::text::lemma_pieces_concat(o + seq!['/'] + r, k, '/');
    crate::text::lemma_pieces_concat(o + seq!['/'] + r + seq!['/'] + k, n, '/');
    assert(seq![o] + seq![r] + seq![k] + seq![n] =~= seq![o, r, k, n]);
}

/// A GitHub pull request or issue URL labels itself `PR #n · owner/repo`
/// or `Issue #n · owner/repo` (owner and repository non-empty, without
/// `/`; `n` non-empty ASCII digits); a URL that starts with none of
/// `https://github.com/`, `http://github.com/` and `github.com/` gets no
/// label.
pub proof fn lemma_github_link_label(p: Seq<char>, o: Seq<char>, r: Seq<char>, pull: bool, n: Seq<char>)
    requires
        p == "https://github.com/"@ || p == "http://github.com/"@ || p == "github.com/"@,
        o.len() > 0 && !o.contains('/'),
        r.len() > 0 && !r.contains('/'),
        n.len() > 0,
        forall|i: int| 0 <= i < n.len() ==> is_ascii_digit(#[trigger] n[i]),
    ensures
        link_label(p + o + "/"@ + r + "/"@ + (if pull { "pull"@ } else { "issues"@ }) + "/"@ + n)
            == Some((if pull { "PR"@ } else { "Issue"@ }) + " #"@ + n + " · "@ + o + "/"@ + r),
{
    reveal_strlit("pull");
    reveal_strlit("issues");
    let k = if pull { "pull"@ } else { "issues"@ };
    assert(!k.contains('/'));
    assert(!n.contains('/')) by {
        if n.contains('/') {
            let j = choose|j: int| 0 <= j < n.len() && n[j] == '/';
            assert(is_ascii_digit(n[j]));
        }
    }
    let rest = o + "/"@ + r + "/"@ + k + "/"@ + n;
    let u = p + o + "/"@ + r + "/"@ + k + "/"@ + n;
    assert(github_path(u) == Some(rest)) by {
        assert(u =~= p + rest);
        lemma_github_path_of(p, rest);
    }
    assert(nonempty_pieces(pieces(rest, '/')) == seq![o, r, k, n]) by {
        lemma_four_pieces(o, r, k, n);
        lemma_four_nonempty(o, r, k, n);
    }
    assert(digit_prefix(n) == n) by {
        lemma_digit_prefix_all(n);
    }
    assert(k == "pull"@ <==> pull) by {
        if !pull {
            assert("issues"@.len() != "pull"@.len());
        }
    }
}

proof fn lemma_four_nonempty(o: Seq<char>, r: Seq<char>, k: Seq<char>, n: Seq<char>)
    requires
        o.len() > 0,
        r.len() > 0,
        k.len() > 0,
        n.len() > 0,
    ensures
        nonempty_pieces(seq![o, r, k, n]) == seq![o, r, k, n],
{
    let ps = seq![o, r, k, n];
    assert(ps.drop_last() =~= seq![o, r, k]);
    assert(seq![o, r, k].drop_last() =~= seq![o, r]);
    assert(seq![o, r].drop_last() =~= seq![o]);
    assert(seq![o].drop_last() =~= Seq::<Seq<char>>::empty());
    let e = Seq::<Seq<char>>::empty();
    assert(nonempty_pieces(e) == e);
    assert(seq![o].last() == o);
    assert(nonempty_pieces(seq![o]) == nonempty_pieces(e).push(o));
    assert(e.push(o) =~= seq![o]);
    assert(nonempty_pieces(seq![o, r]) =~= seq![o, r]);
    assert(nonempty_pieces(seq![o, r, k]) =~= seq![o, r, k]);
}

/// A URL off GitHub gets no label.
pub proof fn lemma_other_link_unlabelled(u: Seq<char>)
    requires
        !has_prefix(u, "https://github.com/"@),
        !has_prefix(u, "http://github.com/"@),
        !has_prefix(u, "github.com/"@),
    ensures
        link_label(u) is None,
{
}

/// A field whose values differ is listed among the changes, with both
/// values.
proof fn lemma_change_listed(
    a: Seq<(Seq<char>, Option<Seq<char>>)>,
    b: Seq<(Seq<char>, Option<Seq<char>>)>,
    n: int,
    k: int,
)
    requires
        0 <= k < n,
        a[k].1 != b[k].1,
    ensures
        changes_upto(a, b, n).contains((a[k].0, a[k].1, b[k].1)),
    decreases n,
{
    if k < n - 1 {
        lemma_change_listed(a, b, n - 1, k);
        let p = changes_upto(a, b, n - 1);
        let i = choose|i: int| 0 <= i < p.len() && p[i] == (a[k].0, a[k].1, b[k].1);
        if a[n - 1].1 != b[n - 1].1 {
            assert(changes_upto(a, b, n)[i] == p[i]);
        }
    } else {
        let p = changes_upto(a, b, n - 1);
        assert(changes_upto(a, b, n)[p.len() as int] == (a[k].0, a[k].1, b[k].1));
    }
}

/// The priority shown in the history: its label, none without one.
pub open spec fn priority_shown(p: Option<Priority>) -> Option<Seq<char>> {
    match p {
        Some(q) => Some(priority_label(q)),
        None => None,
    }
}

/// Every priority edit reaches the history: when the priorities of the two
/// versions of a task differ, the recorded changes hold a `priority` entry
/// from the old label (or none) to the new one.
pub proof fn lemma_priority_change_recorded(old: TrackedTask, new: TrackedTask)
    requires
        old.fields.priority != new.fields.priority,
    ensures
        changes_upto(tracked_spec(old), tracked_spec(new), 9).contains(
            ("priority"@, priority_shown(old.fields.priority), priority_shown(new.fields.priority)),
        ),
{
    reveal_strlit("H");
    reveal_strlit("M");
    reveal_strlit("L");
    let a = tracked_spec(old);
    let b = tracked_spec(new);
    assert(a[3] == ("priority"@, priority_shown(old.fields.priority)));
    assert(b[3] == ("priority"@, priority_shown(new.fields.priority)));
    assert(priority_shown(old.fields.priority) != priority_shown(new.fields.priority)) by {
        match (old.fields.priority, new.fields.priority) {
            (Some(p), Some(q)) => {
                assert(priority_label(p)[0] != priority_label(q)[0]);
            },
            _ => {},
        }
    }
    lemma_change_listed(a, b, 9, 3);
}

} // verus!
