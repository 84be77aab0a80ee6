//! The board groups a project's tasks into features: the chains that `dep`
//! links form, each listed blockers-first.

use vstd::prelude::*;
use vstd::seq_lib::*;
use vstd::set_lib::*;
use crate::graph::edges_within;

verus! {

/// Every in-set blocker of `v` has been placed. An edge `(task, dep)` says
/// that `dep` blocks `task`.
pub open spec fn blockers_placed(
    edges: Seq<(usize, usize)>,
    members: Set<usize>,
    placed: Set<usize>,
    v: usize,
) -> bool {
    forall|k: int|
        0 <= k < edges.len() && (#[trigger] edges[k]).0 == v && members.contains(edges[k].1)
            ==> placed.contains(edges[k].1)
}

/// `v` may be placed next: a member, not placed yet, all its blockers placed.
pub open spec fn is_ready(
    edges: Seq<(usize, usize)>,
    members: Set<usize>,
    placed: Set<usize>,
    v: usize,
) -> bool {
    members.contains(v) && !placed.contains(v) && blockers_placed(edges, members, placed, v)
}

/// The first `k` entries of `s`, as a set.
pub open spec fn prefix_set(s: Seq<usize>, k: int) -> Set<usize> {
    s.take(k).to_set()
}

/// Each of the first `m` entries of `out` is the smallest node that was ready
/// when it was placed.
pub open spec fn greedy_prefix(
    edges: Seq<(usize, usize)>,
    members: Set<usize>,
    out: Seq<usize>,
    m: int,
) -> bool {
    forall|k: int|
        0 <= k < m ==> {
            &&& is_ready(edges, members, prefix_set(out, k), #[trigger] out[k])
            &&& forall|v: usize| is_ready(edges, members, prefix_set(out, k), v) ==> out[k] <= v
        }
}

/// `out` is the blockers-first order of `nodes`: repeatedly the smallest
/// ready node (Kahn's algorithm with ties broken by position) for as long as
/// one is ready, then whatever is left (only on a cycle) in ascending order.
pub open spec fn topo_order_spec(edges: Seq<(usize, usize)>, nodes: Seq<usize>, out: Seq<usize>) -> bool {
    let members = nodes.to_set();
    exists|m: int|
        {
            &&& 0 <= m <= out.len()
            &&& greedy_prefix(edges, members, out, m)
            &&& forall|v: usize| !is_ready(edges, members, prefix_set(out, m), v)
            &&& forall|i: int, j: int| m <= i < j < out.len() ==> out[i] < out[j]
        }
        && out.to_set() == members && out.no_duplicates()
}

/// The smallest ready node, if any.
fn min_ready(
    nodes: &Vec<usize>,
    edges: &Vec<(usize, usize)>,
    member: &Vec<bool>,
    placed: &Vec<bool>,
    ghost_placed: Ghost<Set<usize>>,
) -> (r: Option<usize>)
    requires
        member@.len() == placed@.len(),
        forall|i: int| 0 <= i < nodes@.len() ==> nodes@[i] < member@.len(),
        edges_within(edges@, member@.len() as nat),
        forall|x: usize| x < member@.len() ==> (member@[x as int] == nodes@.to_set().contains(x)),
        forall|x: usize| x < placed@.len() ==> (placed@[x as int] == ghost_placed@.contains(x)),
    ensures
        match r {
            Some(b) => is_ready(edges@, nodes@.to_set(), ghost_placed@, b) && forall|v: usize|
                is_ready(edges@, nodes@.to_set(), ghost_placed@, v) ==> b <= v,
            None => forall|v: usize| !is_ready(edges@, nodes@.to_set(), ghost_placed@, v),
        },
{
    let ghost members = nodes@.to_set();
    let mut best: Option<usize> = None;
    let mut i: usize = 0;
    while i < nodes.len()
        invariant
            i <= nodes@.len(),
            member@.len() == placed@.len(),
            forall|j: int| 0 <= j < nodes@.len() ==> nodes@[j] < member@.len(),
            edges_within(edges@, member@.len() as nat),
            forall|x: usize| x < member@.len() ==> (member@[x as int] == members.contains(x)),
            forall|x: usize| x < placed@.len() ==> (placed@[x as int] == ghost_placed@.contains(x)),
            members == nodes@.to_set(),
            match best {
                Some(b) => is_ready(edges@, members, ghost_placed@, b) && forall|j: int|
                    0 <= j < i && is_ready(edges@, members, ghost_placed@, #[trigger] nodes@[j])
                        ==> b <= nodes@[j],
                None => forall|j: int|
                    0 <= j < i ==> !is_ready(edges@, members, ghost_placed@, #[trigger] nodes@[j]),
            },
        decreases nodes@.len() - i,
    {
        let v = nodes[i];
        proof {
            assert(members.contains(v)) by {
                assert(nodes@[i as int] == v);
            }
        }
        if !placed[v] {
            let ok = blockers_done(v, edges, member, placed, ghost_placed);
            if ok {
                match best {
                    Some(b) => {
                        if v < b {
                            best = Some(v);
                        }
                    },
                    None => {
                        best = Some(v);
                    },
                }
            }
        }
        i = i + 1;
    }
    proof {
        assert forall|v: usize| is_ready(edges@, members, ghost_placed@, v) implies exists|j: int|
            0 <= j < nodes@.len() && nodes@[j] == v by {
            assert(nodes@.contains(v));
        }
    }
    best
}

/// Every in-set blocker of `v` is placed.
fn blockers_done(
    v: usize,
    edges: &Vec<(usize, usize)>,
    member: &Vec<bool>,
    placed: &Vec<bool>,
    ghost_placed: Ghost<Set<usize>>,
) -> (r: bool)
    requires
        member@.len() == placed@.len(),
        edges_within(edges@, member@.len() as nat),
        forall|x: usize| x < placed@.len() ==> (placed@[x as int] == ghost_placed@.contains(x)),
    ensures
        forall|members: Set<usize>|
            (forall|x: usize| x < member@.len() ==> (member@[x as int] == members.contains(x)))
                ==> (r == blockers_placed(edges@, members, ghost_placed@, v)),
{
    let mut k: usize = 0;
    while k < edges.len()
        invariant
            k <= edges@.len(),
            member@.len() == placed@.len(),
            edges_within(edges@, member@.len() as nat),
            forall|x: usize| x < placed@.len() ==> (placed@[x as int] == ghost_placed@.contains(x)),
            forall|j: int|
                0 <= j < k && (#[trigger] edges@[j]).0 == v && member@[edges@[j].1 as int]
                    ==> placed@[edges@[j].1 as int],
        decreases edges@.len() - k,
    {
        let (a, d) = edges[k];
        if a == v && member[d] && !placed[d] {
            proof {
                assert forall|members: Set<usize>|
                    (forall|x: usize| x < member@.len() ==> (member@[x as int] == members.contains(x)))
                        implies !blockers_placed(edges@, members, ghost_placed@, v) by {
                    assert(edges@[k as int].0 == v);
                    assert(members.contains(d));
                    assert(!ghost_placed@.contains(d));
                }
            }
            return false;
        }
        k = k + 1;
    }
    proof {
        assert forall|members: Set<usize>|
            (forall|x: usize| x < member@.len() ==> (member@[x as int] == members.contains(x))) implies
            blockers_placed(edges@, members, ghost_placed@, v) by {
            assert forall|j: int|
                0 <= j < edges@.len() && (#[trigger] edges@[j]).0 == v && members.contains(edges@[j].1)
                    implies ghost_placed@.contains(edges@[j].1) by {
                assert(member@[edges@[j].1 as int]);
            }
        }
    }
    true
}

proof fn lemma_prefix_set_push(out: Seq<usize>, v: usize)
    ensures
        prefix_set(out.push(v), out.len() + 1 as int) == prefix_set(out, out.len() as int).insert(v),
        forall|k: int| 0 <= k <= out.len() ==> prefix_set(out.push(v), k) == prefix_set(out, k),
{
    assert(out.push(v).take(out.len() + 1 as int) =~= out.push(v));
    assert(out.take(out.len() as int) =~= out);
    out.lemma_push_to_set_commute(v);
    assert forall|k: int| 0 <= k <= out.len() implies prefix_set(out.push(v), k) == prefix_set(out, k) by {
        assert(out.push(v).take(k) =~= out.take(k));
    }
}

/// Blockers-first order of `nodes` (distinct task positions `< n`) under the
/// dependency `edges` (`(task, dep)`: `dep` first): Kahn's algorithm, taking
/// the smallest ready position at every step; positions left over (only when
/// the nodes hold a cycle) follow in ascending order.
pub fn topo_order(n: usize, nodes: &Vec<usize>, edges: &Vec<(usize, usize)>) -> (out: Vec<usize>)
    requires
        forall|i: int| 0 <= i < nodes@.len() ==> nodes@[i] < n,
        nodes@.no_duplicates(),
        edges_within(edges@, n as nat),
    ensures
        topo_order_spec(edges@, nodes@, out@),
{
    broadcast use seq_to_set_is_finite;
    let ghost members = nodes@.to_set();
    let mut member: Vec<bool> = Vec::new();
    let mut placed: Vec<bool> = Vec::new();
    let mut i: usize = 0;
    while i < n
        invariant
            i <= n,
            member@.len() == i,
            placed@.len() == i,
            forall|k: int| 0 <= k < i ==> !member@[k] && !placed@[k],
        decreases n - i,
    {
        member.push(false);
        placed.push(false);
        i = i + 1;
    }
    i = 0;
    while i < nodes.len()
        invariant
            i <= nodes@.len(),
            member@.len() == n,
            forall|k: int| 0 <= k < nodes@.len() ==> nodes@[k] < n,
            forall|x: usize| x < n ==> (member@[x as int] == nodes@.take(i as int).contains(x)),
        decreases nodes@.len() - i,
    {
        let v = nodes[i];
        let ghost before = member@;
        member.set(v, true);
        proof {
            assert forall|x: usize| x < n implies (member@[x as int] == nodes@.take(i + 1).contains(x)) by {
                assert(nodes@.take(i + 1) =~= nodes@.take(i as int).push(v));
                if nodes@.take(i as int).contains(x) {
                    let w = choose|w: int| 0 <= w < i && nodes@.take(i as int)[w] == x;
                    assert(nodes@.take(i + 1)[w] == x);
                }
                if x == v {
                    assert(nodes@.take(i + 1)[i as int] == x);
                }
                if nodes@.take(i + 1).contains(x) && x != v {
                    let w = choose|w: int| 0 <= w < i + 1 && #[trigger] nodes@.take(i + 1)[w] == x;
                    assert(nodes@.take(i as int)[w] == x);
                }
            }
        }
        i = i + 1;
    }
    assert(nodes@.take(nodes@.len() as int) =~= nodes@);
    let mut out: Vec<usize> = Vec::new();
    proof {
        assert(out@.take(0).to_set() =~= Set::<usize>::empty());
    }
    loop
        invariant
            member@.len() == n,
            placed@.len() == n,
            forall|k: int| 0 <= k < nodes@.len() ==> nodes@[k] < n,
            edges_within(edges@, n as nat),
            members == nodes@.to_set(),
            members.finite(),
            forall|x: usize| x < n ==> (member@[x as int] == members.contains(x)),
            forall|x: usize| x < n ==> (placed@[x as int] == prefix_set(out@, out@.len() as int).contains(x)),
            greedy_prefix(edges@, members, out@, out@.len() as int),
            prefix_set(out@, out@.len() as int).subset_of(members),
            out@.no_duplicates(),
        ensures
            member@.len() == n,
            placed@.len() == n,
            forall|x: usize| x < n ==> (member@[x as int] == members.contains(x)),
            forall|x: usize| x < n ==> (placed@[x as int] == prefix_set(out@, out@.len() as int).contains(x)),
            greedy_prefix(edges@, members, out@, out@.len() as int),
            prefix_set(out@, out@.len() as int).subset_of(members),
            out@.no_duplicates(),
            forall|v: usize| !is_ready(edges@, members, prefix_set(out@, out@.len() as int), v),
        decreases members.difference(prefix_set(out@, out@.len() as int)).len(),
    {
        let ghost ps = prefix_set(out@, out@.len() as int);
        let pick = min_ready(nodes, edges, &member, &placed, Ghost(ps));
        match pick {
            None => {
                break;
            },
            Some(v) => {
                let ghost old_out = out@;
                placed.set(v, true);
                out.push(v);
                proof {
                    lemma_prefix_set_push(old_out, v);
                    assert(old_out.take(old_out.len() as int) =~= old_out);
                    assert(out@.take(out@.len() as int) =~= out@);
                    assert forall|k: int| 0 <= k < out@.len() implies {
                        &&& is_ready(edges@, members, prefix_set(out@, k), #[trigger] out@[k])
                        &&& forall|u: usize| is_ready(edges@, members, prefix_set(out@, k), u) ==> out@[k] <= u
                    } by {
                        if k < old_out.len() {
                            assert(out@[k] == old_out[k]);
                        } else {
                            assert(out@[k] == v);
                        }
                    }
                    assert forall|a: int, b: int| 0 <= a < out@.len() && 0 <= b < out@.len() && a != b
                        implies out@[a] != out@[b] by {
                        if a < old_out.len() && b < old_out.len() {
                        } else if a < old_out.len() {
                            assert(old_out.take(old_out.len() as int).contains(old_out[a]));
                        } else if b < old_out.len() {
                            assert(old_out.take(old_out.len() as int).contains(old_out[b]));
                        }
                    }
                    members.lemma_set_insert_diff_decreases(ps, v);
                }
            },
        }
    }
    let m = out.len();
    let mut x: usize = 0;
    while x < n
        invariant
            x <= n,
            m <= out@.len(),
            member@.len() == n,
            placed@.len() == n,
            forall|y: usize| y < n ==> (member@[y as int] == members.contains(y)),
            forall|y: usize| y < n ==> (placed@[y as int] == prefix_set(out@, m as int).contains(y)),
            greedy_prefix(edges@, members, out@, m as int),
            forall|v: usize| !is_ready(edges@, members, prefix_set(out@, m as int), v),
            prefix_set(out@, m as int).subset_of(members),
            out@.take(m as int).no_duplicates(),
            forall|i: int| m <= i < out@.len() ==> out@[i] < x && members.contains(out@[i])
                && !prefix_set(out@, m as int).contains(out@[i]),
            forall|i: int, j: int| m <= i < j < out@.len() ==> out@[i] < out@[j],
            forall|y: usize|
                y < x && members.contains(y) && !prefix_set(out@, m as int).contains(y)
                    ==> out@.subrange(m as int, out@.len() as int).contains(y),
        decreases n - x,
    {
        if member[x] && !placed[x] {
            let ghost old_out = out@;
            out.push(x);
            proof {
                assert(out@.take(m as int) =~= old_out.take(m as int));
                assert forall|k: int| 0 <= k < m implies {
                    &&& is_ready(edges@, members, prefix_set(out@, k), #[trigger] out@[k])
                    &&& forall|u: usize| is_ready(edges@, members, prefix_set(out@, k), u) ==> out@[k] <= u
                } by {
                    assert(out@[k] == old_out[k]);
                    assert(out@.take(k) =~= old_out.take(k));
                }
                assert(prefix_set(out@, m as int) == prefix_set(old_out, m as int));
                assert forall|y: usize|
                    y < x + 1 && members.contains(y) && !prefix_set(out@, m as int).contains(y)
                        implies out@.subrange(m as int, out@.len() as int).contains(y) by {
                    if y == x {
                        assert(out@.subrange(m as int, out@.len() as int)[out@.len() - 1 - m] == x);
                    } else {
                        let w = choose|w: int|
                            0 <= w < old_out.len() - m && old_out.subrange(m as int, old_out.len() as int)[w] == y;
                        assert(out@.subrange(m as int, out@.len() as int)[w] == y);
                    }
                }
            }
        }
        x = x + 1;
    }
    proof {
        let ms = prefix_set(out@, m as int);
        assert(out@.take(m as int).no_duplicates());
        assert forall|a: int, b: int| 0 <= a < out@.len() && 0 <= b < out@.len() && a != b implies out@[a]
            != out@[b] by {
            if a < m && b < m {
                assert(out@.take(m as int)[a] == out@[a] && out@.take(m as int)[b] == out@[b]);
            } else if a < m {
                assert(ms.contains(out@[a])) by {
                    assert(out@.take(m as int)[a] == out@[a]);
                }
            } else if b < m {
                assert(ms.contains(out@[b])) by {
                    assert(out@.take(m as int)[b] == out@[b]);
                }
            }
        }
        assert(out@.to_set() =~= members) by {
            assert forall|y: usize| out@.contains(y) implies members.contains(y) by {
                let w = choose|w: int| 0 <= w < out@.len() && out@[w] == y;
                if w < m {
                    assert(out@.take(m as int)[w] == y);
                    assert(ms.contains(y));
                }
            }
            assert forall|y: usize| members.contains(y) implies out@.contains(y) by {
                assert(nodes@.contains(y));
                let w = choose|w: int| 0 <= w < nodes@.len() && nodes@[w] == y;
                assert(y < n);
                if ms.contains(y) {
                    let z = choose|z: int| 0 <= z < m && out@.take(m as int)[z] == y;
                    assert(out@[z] == y);
                } else {
                    let z = choose|z: int|
                        0 <= z < out@.len() - m && out@.subrange(m as int, out@.len() as int)[z] == y;
                    assert(out@[z + m] == y);
                }
            }
        }
        assert(0 <= m <= out@.len());
    }
    out
}

} // verus!

verus! {

use crate::commands::unionfind::component_roots;
use crate::graph::{reaches, symmetric};
use crate::model::{priority_label, Priority};
use crate::text::{
    fmt_i64, fmt_u64, int_to_decimal, nat_digits, owned, pad_left, pad_left_spec, pad_right,
    pad_right_spec, truncate_ellipsis, truncate_spec,
};
use crate::tui::{blank_line, line2, line3, line_view, lines_view, push_line, Piece, Tone};

/// `s` cut to `max` chars, the last replaced by `…` when cut.
pub fn truncate(s: &str, max: usize) -> (r: String)
    requires
        max > 0 || s@.len() == 0,
    ensures
        r@ == truncate_spec(s@, max as int),
{
    truncate_ellipsis(s, max)
}

/// The positions `0..n` that dependency edges (either way) connect to `v`.
pub open spec fn component(n: nat, edges: Seq<(usize, usize)>, v: int) -> Set<usize> {
    Set::new(|u: usize| u < n && reaches(symmetric(edges), v, u as int))
}

/// The positions sharing `roots[i]`.
pub open spec fn class_of(roots: Seq<usize>, i: int) -> Set<usize> {
    Set::new(|u: usize| u < roots.len() && roots[u as int] == roots[i])
}

/// `i` is the first position of its class.
pub open spec fn leads(roots: Seq<usize>, i: int) -> bool {
    forall|j: int| 0 <= j < i ==> roots[j] != roots[i]
}

/// Some position before `i` shares `v`'s class.
pub open spec fn seen_before(roots: Seq<usize>, i: int, v: usize) -> bool {
    exists|j: int| 0 <= j < i && #[trigger] same_class(roots, j, v)
}

/// Positions `j` and `v` share a class.
pub open spec fn same_class(roots: Seq<usize>, j: int, v: usize) -> bool {
    roots[j] == roots[v as int]
}

proof fn lemma_seen_self(roots: Seq<usize>, v: usize)
    requires
        v < roots.len(),
    ensures
        seen_before(roots, roots.len() as int, v),
{
    assert(same_class(roots, v as int, v));
}

/// `v` is among the standalone tasks or in some feature.
pub open spec fn placed_somewhere(features: Seq<Vec<usize>>, ungrouped: Seq<usize>, v: usize) -> bool {
    ungrouped.contains(v) || exists|g: int| 0 <= g < features.len() && (#[trigger] features[g])@.contains(v)
}

fn members_from(roots: &Vec<usize>, i: usize) -> (r: Vec<usize>)
    requires
        i < roots@.len(),
        leads(roots@, i as int),
    ensures
        r@.to_set() == class_of(roots@, i as int),
        forall|a: int, b: int| 0 <= a < b < r@.len() ==> r@[a] < r@[b],
        forall|a: int| 0 <= a < r@.len() ==> r@[a] < roots@.len(),
        r@.len() >= 1,
        r@[0] == i,
{
    let n = roots.len();
    let mut out: Vec<usize> = Vec::new();
    let mut j: usize = i;
    while j < n
        invariant
            n == roots@.len(),
            i <= j <= n,
            i < n,
            leads(roots@, i as int),
            j > i ==> out@.len() >= 1 && out@[0] == i,
            forall|a: int, b: int| 0 <= a < b < out@.len() ==> out@[a] < out@[b],
            forall|a: int| 0 <= a < out@.len() ==> i <= #[trigger] out@[a] < j,
            forall|u: usize| #[trigger] out@.contains(u) <==> (i <= u < j && roots@[u as int] == roots@[i as int]),
        decreases n - j,
    {
        if roots[j] == roots[i] {
            let ghost before = out@;
            out.push(j);
            proof {
                assert forall|u: usize| #[trigger] out@.contains(u) <==> (i <= u < j + 1 && roots@[u as int]
                    == roots@[i as int]) by {
                    if u == j {
                        assert(out@[before.len() as int] == j);
                    } else if out@.contains(u) {
                        let w = choose|w: int| 0 <= w < out@.len() && out@[w] == u;
                        assert(before[w] == u);
                        assert(before.contains(u));
                    } else if i <= u < j && roots@[u as int] == roots@[i as int] {
                        assert(before.contains(u));
                        let w = choose|w: int| 0 <= w < before.len() && before[w] == u;
                        assert(out@[w] == u);
                    }
                }
            }
        }
        j = j + 1;
    }
    assert(out@.to_set() =~= class_of(roots@, i as int)) by {
        assert forall|u: usize| out@.to_set().contains(u) <==> class_of(roots@, i as int).contains(u) by {
            if class_of(roots@, i as int).contains(u) {
                if u < i {
                    assert(roots@[u as int] != roots@[i as int]);
                }
            }
        }
    }
    out
}

/// Some member of `a` comes before every member of `b`: `a`'s first
/// position is earlier than `b`'s.
pub open spec fn starts_before(a: Seq<usize>, b: Seq<usize>) -> bool {
    exists|u: usize| #[trigger] a.contains(u) && forall|v: usize| #[trigger] b.contains(v) ==> u < v
}

/// The features of a board: the groups of tasks (positions `0..n`) that
/// dependency edges connect, each of two or more tasks and listed
/// blockers-first (see `topo_order`), in the order of their first
/// position; and the tasks standing alone, ascending.
pub fn feature_groups(n: usize, edges: &Vec<(usize, usize)>) -> (r: (Vec<Vec<usize>>, Vec<usize>))
    requires
        edges_within(edges@, n as nat),
    ensures
        forall|g: int|
            0 <= g < r.0@.len() ==> {
                &&& (#[trigger] r.0@[g])@.len() >= 2
                &&& topo_order_spec(edges@, r.0@[g]@, r.0@[g]@)
                &&& forall|v: usize| r.0@[g]@.contains(v) ==> component(n as nat, edges@, v as int) == r.0@[g]@.to_set()
            },
        forall|g: int, h: int, v: usize|
            0 <= g < h < r.0@.len() ==> !(#[trigger] r.0@[g]@.contains(v) && #[trigger] r.0@[h]@.contains(v)),
        forall|g: int, h: int| 0 <= g < h < r.0@.len() ==> starts_before(#[trigger] r.0@[g]@, #[trigger] r.0@[h]@),
        forall|a: int, b: int| 0 <= a < b < r.1@.len() ==> r.1@[a] < r.1@[b],
        forall|v: usize|
            #[trigger] r.1@.contains(v) ==> v < n && component(n as nat, edges@, v as int) == set![v],
        forall|v: usize|
            v < n ==> r.1@.contains(v) || exists|g: int| 0 <= g < r.0@.len() && (#[trigger] r.0@[g])@.contains(v),
{
    let roots = component_roots(n, edges);
    let ghost sym = symmetric(edges@);
    proof {
        assert forall|a: int| 0 <= a < n implies #[trigger] class_of(roots@, a) == component(n as nat, edges@, a) by {
            assert(class_of(roots@, a) =~= component(n as nat, edges@, a)) by {
                assert forall|u: usize| class_of(roots@, a).contains(u) <==> component(n as nat, edges@, a).contains(u) by {
                    if u < n {
                        assert(roots@[a] == roots@[u as int] <==> reaches(sym, a, u as int));
                    }
                }
            }
        }
    }
    let mut features: Vec<Vec<usize>> = Vec::new();
    let mut ungrouped: Vec<usize> = Vec::new();
    let ghost mut leaders: Seq<int> = Seq::empty();
    let mut i: usize = 0;
    while i < n
        invariant
            i <= n,
            roots@.len() == n,
            edges_within(edges@, n as nat),
            forall|a: int| 0 <= a < n ==> #[trigger] class_of(roots@, a) == component(n as nat, edges@, a),
            leaders.len() == features@.len(),
            forall|g: int| 0 <= g < features@.len() ==> {
                &&& 0 <= #[trigger] leaders[g] < i
                &&& leads(roots@, leaders[g])
                &&& features@[g]@.len() >= 2
                &&& features@[g]@.to_set() == class_of(roots@, leaders[g])
                &&& topo_order_spec(edges@, features@[g]@, features@[g]@)
            },
            forall|g: int, h: int| 0 <= g < h < features@.len() ==> #[trigger] leaders[g] < #[trigger] leaders[h],
            forall|a: int, b: int| 0 <= a < b < ungrouped@.len() ==> ungrouped@[a] < ungrouped@[b],
            forall|a: int| 0 <= a < ungrouped@.len() ==> ungrouped@[a] < i,
            forall|v: usize| #[trigger] ungrouped@.contains(v) ==> v < n && class_of(roots@, v as int) == set![v],
            forall|v: usize| v < n && #[trigger] seen_before(roots@, i as int, v) ==> placed_somewhere(features@, ungrouped@, v),
        decreases n - i,
    {
        let ghost old_f = features@;
        let ghost old_u = ungrouped@;
        let ghost old_leaders = leaders;
        let mut lead = true;
        let mut j: usize = 0;
        while j < i
            invariant
                j <= i,
                i < n,
                roots@.len() == n,
                lead == forall|k: int| 0 <= k < j ==> roots@[k] != roots@[i as int],
            decreases i - j,
        {
            if roots[j] == roots[i] {
                lead = false;
            }
            j = j + 1;
        }
        if lead {
            let members = members_from(&roots, i);
            if members.len() >= 2 {
                proof {
                    assert forall|a: int, b: int| 0 <= a < members@.len() && 0 <= b < members@.len() && a != b implies members@[a] != members@[b] by {
                        if a < b {
                            assert(members@[a] < members@[b]);
                        } else {
                            assert(members@[b] < members@[a]);
                        }
                    }
                }
                let ordered = topo_order(n, &members, edges);
                proof {
                    assert(ordered@.to_set() == members@.to_set());
                    assert(topo_order_spec(edges@, ordered@, ordered@));
                    assert(ordered@.len() >= 2) by {
                        assert(members@.contains(members@[0]) && members@.contains(members@[1]));
                        assert(ordered@.to_set().contains(members@[0]));
                        assert(ordered@.to_set().contains(members@[1]));
                        if ordered@.len() < 2 {
                            let x0 = members@[0];
                            let x1 = members@[1];
                            assert(ordered@.contains(x0) && ordered@.contains(x1));
                            let w0 = choose|w: int| 0 <= w < ordered@.len() && ordered@[w] == x0;
                            let w1 = choose|w: int| 0 <= w < ordered@.len() && ordered@[w] == x1;
                            assert(members@[0] < members@[1]);
                        }
                    }
                }
                features.push(ordered);
                proof {
                    leaders = leaders.push(i as int);
                    assert(features@ == old_f.push(ordered));
                }
            } else {
                proof {
                    assert(members@.len() == 1);
                    assert(class_of(roots@, i as int) =~= set![i]) by {
                        assert forall|u: usize| members@.to_set().contains(u) <==> u == i by {
                            if members@.contains(u) {
                                let w = choose|w: int| 0 <= w < members@.len() && members@[w] == u;
                                assert(w == 0);
                            }
                            if u == i {
                                assert(members@[0] == i);
                            }
                        }
                    }
                }
                ungrouped.push(i);
                proof {
                    assert(ungrouped@ == old_u.push(i));
                    assert forall|v: usize| #[trigger] ungrouped@.contains(v) implies v < n && class_of(roots@, v as int) == set![v] by {
                        if v != i {
                            let w = choose|w: int| 0 <= w < ungrouped@.len() && ungrouped@[w] == v;
                            assert(old_u[w] == v);
                            assert(old_u.contains(v));
                        }
                    }
                }
            }
        }
        proof {
            assert(features@.len() >= old_f.len());
            assert(forall|g: int| 0 <= g < old_f.len() ==> features@[g] == old_f[g]);
            assert(forall|v: usize| old_u.contains(v) ==> ungrouped@.contains(v)) by {
                assert forall|v: usize| old_u.contains(v) implies ungrouped@.contains(v) by {
                    let w = choose|w: int| 0 <= w < old_u.len() && old_u[w] == v;
                    assert(ungrouped@[w] == v);
                }
            }
            assert forall|v: usize| v < n && #[trigger] seen_before(roots@, i + 1, v) implies placed_somewhere(features@, ungrouped@, v) by {
                if seen_before(roots@, i as int, v) {
                    assert(placed_somewhere(old_f, old_u, v));
                    if !old_u.contains(v) {
                        let g = choose|g: int| 0 <= g < old_f.len() && (#[trigger] old_f[g])@.contains(v);
                        assert(features@[g] == old_f[g]);
                    }
                } else {
                    let j = choose|j: int| 0 <= j < i + 1 && #[trigger] same_class(roots@, j, v);
                    if j < i {
                        assert(seen_before(roots@, i as int, v));
                    }
                    assert(roots@[i as int] == roots@[v as int]);
                    assert forall|k: int| 0 <= k < i implies roots@[k] != roots@[i as int] by {
                        if roots@[k] == roots@[i as int] {
                            assert(same_class(roots@, k, v));
                        }
                    }
                    assert(leads(roots@, i as int));
                    assert(class_of(roots@, i as int).contains(v));
                    if features@.len() > old_f.len() {
                        let g = old_f.len() as int;
                        assert(features@[g]@.to_set() == class_of(roots@, i as int));
                        assert(features@[g]@.to_set().contains(v));
                    } else {
                        assert(v == i);
                        assert(ungrouped@.contains(i)) by {
                            assert(ungrouped@[ungrouped@.len() - 1] == i);
                        }
                    }
                }
            }
        }
        i = i + 1;
    }
    proof {
        assert forall|g: int, h: int, v: usize| 0 <= g < h < features@.len() implies !(#[trigger] features@[g]@.contains(v)
            && #[trigger] features@[h]@.contains(v)) by {
            if features@[g]@.contains(v) && features@[h]@.contains(v) {
                assert(features@[g]@.to_set().contains(v));
                assert(features@[h]@.to_set().contains(v));
                let lg = leaders[g];
                let lh = leaders[h];
                assert(roots@[v as int] == roots@[lg]);
                assert(roots@[v as int] == roots@[lh]);
                assert(lg < lh);
                assert(leads(roots@, lh));
            }
        }
        assert forall|g: int| 0 <= g < features@.len() implies forall|v: usize| (#[trigger] features@[g])@.contains(v) ==> component(
            n as nat,
            edges@,
            v as int,
        ) == features@[g]@.to_set() by {
            assert forall|v: usize| features@[g]@.contains(v) implies component(n as nat, edges@, v as int) == features@[g]@.to_set() by {
                let l = leaders[g];
                assert(features@[g]@.to_set().contains(v));
                assert(class_of(roots@, v as int) =~= class_of(roots@, l));
            }
        }
        assert forall|v: usize| v < n implies ungrouped@.contains(v) || exists|g: int| 0 <= g < features@.len() && (#[trigger] features@[g])@.contains(v) by {
            lemma_seen_self(roots@, v);
            assert(placed_somewhere(features@, ungrouped@, v));
        }
        assert forall|g: int, h: int| 0 <= g < h < features@.len() implies starts_before(
            #[trigger] features@[g]@,
            #[trigger] features@[h]@,
        ) by {
            let lg = leaders[g];
            let lh = leaders[h];
            assert(class_of(roots@, lg).contains(lg as usize));
            assert(features@[g]@.to_set().contains(lg as usize));
            assert forall|v: usize| features@[h]@.contains(v) implies (lg as usize) < v by {
                assert(features@[h]@.to_set().contains(v));
                assert(roots@[v as int] == roots@[lh]);
                assert(leads(roots@, lh));
                if (v as int) < lh {
                    assert(roots@[v as int] != roots@[lh]);
                }
            }
            assert(features@[g]@.contains(lg as usize));
        }
        assert forall|g: int| 0 <= g < features@.len() implies {
            &&& (#[trigger] features@[g])@.len() >= 2
            &&& topo_order_spec(edges@, features@[g]@, features@[g]@)
        } by {
            let l = leaders[g];
        }
    }
    let result = (features, ungrouped);
    proof {
        assert forall|v: usize| v < n implies result.1@.contains(v) || exists|g: int|
            0 <= g < result.0@.len() && (#[trigger] result.0@[g])@.contains(v) by {
            if !result.1@.contains(v) {
                let g = choose|g: int| 0 <= g < features@.len() && (#[trigger] features@[g])@.contains(v);
                assert(result.0@[g] == features@[g]);
            }
        }
    }
    result
}

// ── what the board shows ──────────────────────────────────────────────────

/// A task as the board lists it.
pub struct BoardRow {
    pub id: Option<i64>,
    pub description: String,
    pub priority: Option<Priority>,
    pub completed: bool,
}

/// A heading of the board: a feature (a chain of linked tasks) or, with
/// `grouped == false`, the standalone tasks.
pub struct Feature {
    pub title: String,
    pub done: usize,
    pub total: usize,
    pub grouped: bool,
}

/// How many of the tasks at `nodes` are completed.
pub open spec fn done_count(nodes: Seq<usize>, completed: Seq<bool>) -> nat
    decreases nodes.len(),
{
    if nodes.len() == 0 {
        0
    } else {
        done_count(nodes.drop_last(), completed) + if completed[nodes.last() as int] {
            1nat
        } else {
            0nat
        }
    }
}

proof fn lemma_done_count_le(nodes: Seq<usize>, completed: Seq<bool>)
    ensures
        done_count(nodes, completed) <= nodes.len(),
    decreases nodes.len(),
{
    if nodes.len() > 0 {
        lemma_done_count_le(nodes.drop_last(), completed);
    }
}

/// The heading of a chain: named after its last (goal) task, cut to 56
/// chars, with how many of its tasks are done; standalone tasks get the
/// heading "Standalone tasks".
pub fn feature_for(nodes: &Vec<usize>, rows: &Vec<BoardRow>, grouped: bool, index: usize) -> (r:
    Feature)
    requires
        forall|k: int| 0 <= k < nodes@.len() ==> nodes@[k] < rows@.len(),
        index < usize::MAX,
    ensures
        r.total == nodes@.len(),
        r.done == done_count(nodes@, rows@.map_values(|t: BoardRow| t.completed)),
        r.grouped == grouped,
        r.title@ == (if !grouped {
            "Standalone tasks"@
        } else if nodes@.len() > 0 {
            truncate_spec(rows@[nodes@.last() as int].description@, 56)
        } else {
            "Feature "@ + nat_digits((index + 1) as nat)
        }),
{
    let ghost completed = rows@.map_values(|t: BoardRow| t.completed);
    let mut done: usize = 0;
    let mut k: usize = 0;
    assert(nodes@.take(0) =~= Seq::<usize>::empty());
    while k < nodes.len()
        invariant
            k <= nodes@.len(),
            forall|j: int| 0 <= j < nodes@.len() ==> nodes@[j] < rows@.len(),
            completed == rows@.map_values(|t: BoardRow| t.completed),
            done == done_count(nodes@.take(k as int), completed),
            done <= k,
        decreases nodes@.len() - k,
    {
        proof {
            assert(nodes@.take(k + 1).drop_last() =~= nodes@.take(k as int));
            lemma_done_count_le(nodes@.take(k as int), completed);
        }
        if rows[nodes[k]].completed {
            done = done + 1;
        }
        k = k + 1;
    }
    assert(nodes@.take(nodes@.len() as int) =~= nodes@);
    let title = if !grouped {
        owned("Standalone tasks")
    } else if nodes.len() > 0 {
        truncate(rows[nodes[nodes.len() - 1]].description.as_str(), 56)
    } else {
        let mut t = owned("Feature ");
        t.append(fmt_u64((index + 1) as u64).as_str());
        t
    };
    Feature { title, done, total: nodes.len(), grouped }
}

/// The heading line: an icon (• standalone, ✓ all done, ▸ otherwise) and
/// the title, then the done count.
pub open spec fn header_line(f: Feature) -> Seq<(Seq<char>, Tone)> {
    let complete = f.total > 0 && f.done == f.total;
    let icon = if !f.grouped {
        "•"@
    } else if complete {
        "✓"@
    } else {
        "▸"@
    };
    let tone = if complete {
        Tone::GoodBold
    } else if f.grouped {
        Tone::AccentBold
    } else {
        Tone::MutedBold
    };
    seq![
        (" "@ + icon + " "@ + f.title@ + "  "@, tone),
        (nat_digits(f.done as nat) + "/"@ + nat_digits(f.total as nat) + " done"@, Tone::Dim),
    ]
}

pub fn feature_header(f: &Feature) -> (r: Vec<Piece>)
    ensures
        line_view(r) == header_line(*f),
{
    let complete = f.total > 0 && f.done == f.total;
    let icon = if !f.grouped {
        "•"
    } else if complete {
        "✓"
    } else {
        "▸"
    };
    let tone = if complete {
        Tone::GoodBold
    } else if f.grouped {
        Tone::AccentBold
    } else {
        Tone::MutedBold
    };
    let mut head = owned(" ");
    head.append(icon);
    head.append(" ");
    head.append(f.title.as_str());
    head.append("  ");
    let mut count = fmt_u64(f.done as u64);
    count.append("/");
    count.append(fmt_u64(f.total as u64).as_str());
    count.append(" done");
    line2(head, tone, count, Tone::Dim)
}

/// A task's id right-aligned in three columns, or `-`.
pub open spec fn id_cell(id: Option<i64>) -> Seq<char> {
    match id {
        Some(i) => pad_left_spec(int_to_decimal(i as int), 3),
        None => "  -"@,
    }
}

pub open spec fn priority_tone(p: Option<Priority>) -> Tone {
    match p {
        Some(Priority::H) => Tone::Bad,
        Some(Priority::M) => Tone::Warn,
        Some(Priority::L) => Tone::Good,
        None => Tone::Dim,
    }
}

/// A task's line: a marker on the highlighted row, a connector for tasks of
/// a chain, the id, then (for pending tasks) the priority, then the
/// description, struck through when the task is done.
pub open spec fn board_task_line(t: BoardRow, selected: bool, grouped: bool) -> Seq<(Seq<char>, Tone)> {
    let prefix = if selected {
        " ▶ "@
    } else {
        "   "@
    };
    let connector = if grouped {
        "└ "@
    } else {
        ""@
    };
    if t.completed {
        let meta = if selected {
            Tone::Selected
        } else {
            Tone::Dim
        };
        seq![
            (prefix + connector, meta),
            (id_cell(t.id) + "  "@, meta),
            (t.description@, if selected {
                Tone::SelectedCrossed
            } else {
                Tone::DimCrossed
            }),
        ]
    } else {
        let pri = match t.priority {
            Some(p) => priority_label(p),
            None => "-"@,
        };
        seq![
            (prefix + connector, if selected {
                Tone::Selected
            } else {
                Tone::Muted
            }),
            (id_cell(t.id) + "  "@, if selected {
                Tone::Selected
            } else {
                Tone::Accent
            }),
            (pad_right_spec(pri, 4) + "  "@, if selected {
                Tone::Selected
            } else {
                priority_tone(t.priority)
            }),
            (t.description@, if selected {
                Tone::SelectedBold
            } else {
                Tone::Plain
            }),
        ]
    }
}

pub fn task_line_for(t: &BoardRow, selected: bool, grouped: bool) -> (r: Vec<Piece>)
    ensures
        line_view(r) == board_task_line(*t, selected, grouped),
{
    let mut lead = owned(if selected {
        " ▶ "
    } else {
        "   "
    });
    lead.append(if grouped {
        "└ "
    } else {
        ""
    });
    let mut id = match t.id {
        Some(i) => pad_left(fmt_i64(i).as_str(), 3),
        None => owned("  -"),
    };
    id.append("  ");
    if t.completed {
        let meta = if selected {
            Tone::Selected
        } else {
            Tone::Dim
        };
        let done = if selected {
            Tone::SelectedCrossed
        } else {
            Tone::DimCrossed
        };
        line3(lead, meta, id, meta, owned(t.description.as_str()), done)
    } else {
        let pri = match t.priority {
            Some(p) => p.label(),
            None => "-",
        };
        let tone = match t.priority {
            Some(Priority::H) => Tone::Bad,
            Some(Priority::M) => Tone::Warn,
            Some(Priority::L) => Tone::Good,
            None => Tone::Dim,
        };
        let mut pri_cell = pad_right(pri, 4);
        pri_cell.append("  ");
        let mut v = line3(
            lead,
            if selected {
                Tone::Selected
            } else {
                Tone::Muted
            },
            id,
            if selected {
                Tone::Selected
            } else {
                Tone::Accent
            },
            pri_cell,
            if selected {
                Tone::Selected
            } else {
                tone
            },
        );
        let ghost lv = line_view(v);
        let ghost dtone = if selected {
            Tone::SelectedBold
        } else {
            Tone::Plain
        };
        v.push(
            Piece {
                text: owned(t.description.as_str()),
                tone: if selected {
                    Tone::SelectedBold
                } else {
                    Tone::Plain
                },
            },
        );
        assert(line_view(v) =~= lv.push((t.description@, dtone)));
        v
    }
}

/// The board's lines up to task `k`, and the line of each of those tasks:
/// a heading (after a blank line, but for the first) wherever the feature
/// changes, then one line per task.
pub open spec fn board_layout(
    rows: Seq<BoardRow>,
    feature_of: Seq<usize>,
    features: Seq<Feature>,
    selected: int,
    k: int,
) -> (Seq<Seq<(Seq<char>, Tone)>>, Seq<int>)
    decreases k,
{
    if k <= 0 {
        (Seq::empty(), Seq::empty())
    } else {
        let (ls, idx) = board_layout(rows, feature_of, features, selected, k - 1);
        let fi = feature_of[k - 1];
        let ls2 = if k - 1 == 0 || feature_of[k - 2] != fi {
            (if k - 1 > 0 {
                ls.push(Seq::empty())
            } else {
                ls
            }).push(header_line(features[fi as int]))
        } else {
            ls
        };
        (
            ls2.push(board_task_line(rows[k - 1], k - 1 == selected, features[fi as int].grouped)),
            idx.push(ls2.len() as int),
        )
    }
}

/// The board's lines, and for each task the line it is on.
pub fn build_lines(rows: &Vec<BoardRow>, feature_of: &Vec<usize>, features: &Vec<Feature>, selected: usize) -> (r: (
    Vec<Vec<Piece>>,
    Vec<usize>,
))
    requires
        feature_of@.len() == rows@.len(),
        forall|i: int| 0 <= i < feature_of@.len() ==> feature_of@[i] < features@.len(),
        rows@.len() * 3 < usize::MAX,
    ensures
        lines_view(r.0@) == board_layout(rows@, feature_of@, features@, selected as int, rows@.len() as int).0,
        r.1@.map_values(|x: usize| x as int) == board_layout(rows@, feature_of@, features@, selected as int, rows@.len() as int).1,
{
    let mut lines: Vec<Vec<Piece>> = Vec::new();
    let mut at: Vec<usize> = Vec::new();
    let mut i: usize = 0;
    while i < rows.len()
        invariant
            i <= rows@.len(),
            feature_of@.len() == rows@.len(),
            forall|j: int| 0 <= j < feature_of@.len() ==> feature_of@[j] < features@.len(),
            rows@.len() * 3 < usize::MAX,
            lines@.len() <= 3 * i,
            lines_view(lines@) == board_layout(rows@, feature_of@, features@, selected as int, i as int).0,
            at@.map_values(|x: usize| x as int) == board_layout(rows@, feature_of@, features@, selected as int, i as int).1,
        decreases rows@.len() - i,
    {
        let fi = feature_of[i];
        if i == 0 || feature_of[i - 1] != fi {
            if i > 0 {
                push_line(&mut lines, blank_line());
            }
            push_line(&mut lines, feature_header(&features[fi]));
        }
        let ghost before_at = at@;
        at.push(lines.len());
        assert(at@.map_values(|x: usize| x as int) =~= before_at.map_values(|x: usize| x as int).push(
            lines@.len() as int,
        ));
        push_line(&mut lines, task_line_for(&rows[i], i == selected, features[fi].grouped));
        i = i + 1;
    }
    (lines, at)
}

// ── keys on the board ─────────────────────────────────────────────────────

/// A key press as the board tells keys apart.
#[derive(Clone, Copy, Debug, PartialEq, Eq, Structural)]
pub enum BoardKey {
    /// `q` or Esc.
    Quit,
    /// Down or `j`.
    Down,
    /// Up or `k`.
    Up,
    PageDown,
    PageUp,
    Enter,
    Other,
}

/// What the caller does after a key.
#[derive(Clone, Copy, Debug, PartialEq, Eq, Structural)]
pub enum BoardAction {
    Nothing,
    Quit,
    /// Open the detail view of the task at that position.
    OpenTask(usize),
}

/// The highlighted task and how far the board is scrolled.
#[derive(Clone, Copy, Debug, PartialEq, Eq, Structural)]
pub struct BoardCursor {
    pub selected: usize,
    pub scroll: u16,
}

pub open spec fn board_step(c: BoardCursor, n: nat, key: BoardKey) -> (BoardCursor, BoardAction) {
    match key {
        BoardKey::Quit => (c, BoardAction::Quit),
        BoardKey::Down => (
            if n > 0 {
                BoardCursor {
                    selected: if c.selected + 1 < n {
                        (c.selected + 1) as usize
                    } else {
                        (n - 1) as usize
                    },
                    ..c
                }
            } else {
                c
            },
            BoardAction::Nothing,
        ),
        BoardKey::Up => (
            BoardCursor { selected: if c.selected == 0 { 0 } else { (c.selected - 1) as usize }, ..c },
            BoardAction::Nothing,
        ),
        BoardKey::PageDown => (
            BoardCursor {
                scroll: if c.scroll + 10 <= u16::MAX {
                    (c.scroll + 10) as u16
                } else {
                    u16::MAX
                },
                ..c
            },
            BoardAction::Nothing,
        ),
        BoardKey::PageUp => (
            BoardCursor { scroll: if c.scroll >= 10 { (c.scroll - 10) as u16 } else { 0 }, ..c },
            BoardAction::Nothing,
        ),
        BoardKey::Enter => (
            c,
            if c.selected < n {
                BoardAction::OpenTask(c.selected)
            } else {
                BoardAction::Nothing
            },
        ),
        BoardKey::Other => (c, BoardAction::Nothing),
    }
}

/// The scroll that keeps line `line` inside a viewport of `viewport` rows.
pub open spec fn followed(scroll: u16, line: u16, viewport: u16) -> u16 {
    if line < scroll {
        line
    } else if viewport > 0 && line >= scroll + viewport {
        (line + 1 - viewport) as u16
    } else {
        scroll
    }
}

impl BoardCursor {
    /// Handle one key on a board of `n` tasks.
    pub fn step(&mut self, n: usize, key: BoardKey) -> (r: BoardAction)
        ensures
            (*final(self), r) == board_step(*old(self), n as nat, key),
    {
        match key {
            BoardKey::Quit => BoardAction::Quit,
            BoardKey::Down => {
                if n > 0 {
                    self.selected = if self.selected < n - 1 {
                        self.selected + 1
                    } else {
                        n - 1
                    };
                }
                BoardAction::Nothing
            },
            BoardKey::Up => {
                self.selected = if self.selected == 0 {
                    0
                } else {
                    self.selected - 1
                };
                BoardAction::Nothing
            },
            BoardKey::PageDown => {
                self.scroll = if self.scroll <= u16::MAX - 10 {
                    self.scroll + 10
                } else {
                    u16::MAX
                };
                BoardAction::Nothing
            },
            BoardKey::PageUp => {
                self.scroll = if self.scroll >= 10 {
                    self.scroll - 10
                } else {
                    0
                };
                BoardAction::Nothing
            },
            BoardKey::Enter => {
                if self.selected < n {
                    BoardAction::OpenTask(self.selected)
                } else {
                    BoardAction::Nothing
                }
            },
            BoardKey::Other => BoardAction::Nothing,
        }
    }

    /// Scroll so that the highlighted task's line `line` is in view.
    pub fn follow(&mut self, line: u16, viewport: u16)
        ensures
            *final(self) == (BoardCursor { scroll: followed(old(self).scroll, line, viewport), ..*old(self) }),
    {
        if line < self.scroll {
            self.scroll = line;
        } else if viewport > 0 && line as u32 >= self.scroll as u32 + viewport as u32 {
            self.scroll = line - (viewport - 1);
        }
    }
}

/// On a board of `n` tasks the highlighted task stays among them, whatever
/// the key.
pub proof fn lemma_board_step_in_range(c: BoardCursor, n: nat, key: BoardKey)
    requires
        c.selected < n,
    ensures
        board_step(c, n, key).0.selected < n,
{
}

/// The board's rows in order, each with the group it belongs to: the tasks
/// of each feature in turn, then the standalone tasks as one more group
/// when there are any.
pub open spec fn board_rows(features: Seq<Seq<usize>>, ungrouped: Seq<usize>) -> Seq<(usize, int)> {
    let groups = if ungrouped.len() > 0 {
        features.push(ungrouped)
    } else {
        features
    };
    tagged(groups)
}

/// The groups as sequences.
pub open spec fn group_views(groups: Seq<Vec<usize>>) -> Seq<Seq<usize>> {
    groups.map_values(|g: Vec<usize>| g@)
}

/// Every member of every group, in order, with its group's index.
pub open spec fn tagged(groups: Seq<Seq<usize>>) -> Seq<(usize, int)>
    decreases groups.len(),
{
    if groups.len() == 0 {
        Seq::empty()
    } else {
        let g = groups.len() - 1;
        tagged(groups.drop_last()) + groups.last().map_values(|v: usize| (v, g))
    }
}

/// Every tagged row names a member of its group, and the group indices
/// never go down along the rows: each group's rows are contiguous, in group
/// order.
pub proof fn lemma_tagged_groups(groups: Seq<Seq<usize>>)
    ensures
        forall|k: int|
            0 <= k < tagged(groups).len() ==> {
                &&& 0 <= (#[trigger] tagged(groups)[k]).1 < groups.len()
                &&& groups[tagged(groups)[k].1].contains(tagged(groups)[k].0)
            },
        forall|a: int, b: int|
            0 <= a < b < tagged(groups).len() ==> (#[trigger] tagged(groups)[a]).1 <= (
            #[trigger] tagged(groups)[b]).1,
    decreases groups.len(),
{
    if groups.len() > 0 {
        let front = groups.drop_last();
        lemma_tagged_groups(front);
        let g = groups.len() - 1;
        let tail = groups.last().map_values(|v: usize| (v, g));
        let t = tagged(groups);
        assert(t == tagged(front) + tail);
        assert forall|k: int| 0 <= k < t.len() implies {
            &&& 0 <= (#[trigger] t[k]).1 < groups.len()
            &&& groups[t[k].1].contains(t[k].0)
        } by {
            if k < tagged(front).len() {
                assert(t[k] == tagged(front)[k]);
                assert(groups[t[k].1] == front[t[k].1]);
            } else {
                let j = k - tagged(front).len();
                assert(t[k] == tail[j]);
                assert(groups.last()[j] == t[k].0);
            }
        }
        assert forall|a: int, b: int| 0 <= a < b < t.len() implies (#[trigger] t[a]).1 <= (
        #[trigger] t[b]).1 by {
            if b < tagged(front).len() {
                assert(t[a] == tagged(front)[a]);
                assert(t[b] == tagged(front)[b]);
            } else if a < tagged(front).len() {
                assert(t[a] == tagged(front)[a]);
                assert(t[b] == tail[b - tagged(front).len()]);
            } else {
                assert(t[a] == tail[a - tagged(front).len()]);
                assert(t[b] == tail[b - tagged(front).len()]);
            }
        }
    }
}

/// The board's rows: every row shows a task of its group, the groups come
/// one after another in order, and when there are standalone tasks their
/// group is the last, after every feature.
pub proof fn lemma_board_rows_grouped(features: Seq<Seq<usize>>, ungrouped: Seq<usize>)
    ensures
        forall|k: int|
            0 <= k < board_rows(features, ungrouped).len() ==> {
                let (v, g) = #[trigger] board_rows(features, ungrouped)[k];
                &&& 0 <= g < features.len() ==> features[g].contains(v)
                &&& g == features.len() ==> ungrouped.len() > 0 && ungrouped.contains(v)
                &&& 0 <= g <= features.len()
            },
        forall|a: int, b: int|
            0 <= a < b < board_rows(features, ungrouped).len() ==> (#[trigger] board_rows(
                features,
                ungrouped,
            )[a]).1 <= (#[trigger] board_rows(features, ungrouped)[b]).1,
{
    let groups = if ungrouped.len() > 0 {
        features.push(ungrouped)
    } else {
        features
    };
    lemma_tagged_groups(groups);
    assert forall|k: int| 0 <= k < board_rows(features, ungrouped).len() implies {
        let (v, g) = #[trigger] board_rows(features, ungrouped)[k];
        &&& 0 <= g < features.len() ==> features[g].contains(v)
        &&& g == features.len() ==> ungrouped.len() > 0 && ungrouped.contains(v)
        &&& 0 <= g <= features.len()
    } by {
        let (v, g) = tagged(groups)[k];
        if ungrouped.len() > 0 && g < features.len() {
            assert(groups[g] == features[g]);
        }
    }
}

/// `nodes` added to `order`, each tagged with group `g` in `group_of`.
fn append_group(order: &mut Vec<usize>, group_of: &mut Vec<usize>, nodes: &Vec<usize>, g: usize)
    ensures
        final(order)@ == old(order)@ + nodes@,
        final(group_of)@ == old(group_of)@ + Seq::new(nodes@.len(), |i: int| g),
{
    let ghost o0 = order@;
    let ghost g0 = group_of@;
    let mut j: usize = 0;
    while j < nodes.len()
        invariant
            j <= nodes.len(),
            order@ == o0 + nodes@.take(j as int),
            group_of@ == g0 + Seq::new(j as nat, |i: int| g),
        decreases nodes.len() - j,
    {
        order.push(nodes[j]);
        group_of.push(g);
        assert(order@ =~= o0 + nodes@.take(j + 1));
        assert(group_of@ =~= g0 + Seq::new((j + 1) as nat, |i: int| g));
        j = j + 1;
    }
    assert(nodes@.take(nodes.len() as int) =~= nodes@);
}

/// `board_rows`, computed: the task positions in display order, and the
/// group of each.
pub fn board_order(features: &Vec<Vec<usize>>, ungrouped: &Vec<usize>) -> (r: (Vec<usize>, Vec<usize>))
    ensures
        r.0@.len() == r.1@.len(),
        r.0@.len() == board_rows(group_views(features@), ungrouped@).len(),
        forall|k: int|
            0 <= k < r.0@.len() ==> (r.0@[k], r.1@[k] as int) == #[trigger] board_rows(
                group_views(features@),
                ungrouped@,
            )[k],
{
    let ghost fs = group_views(features@);
    let mut order: Vec<usize> = Vec::new();
    let mut group_of: Vec<usize> = Vec::new();
    let mut fi: usize = 0;
    assert(fs.take(0) =~= Seq::<Seq<usize>>::empty());
    while fi < features.len()
        invariant
            fi <= features.len(),
            fs == group_views(features@),
            order@.len() == group_of@.len(),
            order@.len() == tagged(fs.take(fi as int)).len(),
            forall|k: int|
                0 <= k < order@.len() ==> (order@[k], group_of@[k] as int) == #[trigger] tagged(
                    fs.take(fi as int),
                )[k],
        decreases features.len() - fi,
    {
        let ghost before = tagged(fs.take(fi as int));
        let ghost (o0, g0) = (order@, group_of@);
        assert(fs.take(fi + 1).drop_last() =~= fs.take(fi as int));
        assert(fs.take(fi + 1).last() == features@[fi as int]@);
        append_group(&mut order, &mut group_of, &features[fi], fi);
        proof {
            let nodes = features@[fi as int]@;
            let after = tagged(fs.take(fi + 1));
            let tail = nodes.map_values(|v: usize| (v, fi as int));
            assert(after =~= before + tail);
            assert forall|k: int| 0 <= k < order@.len() implies (order@[k], group_of@[k] as int)
                == #[trigger] after[k] by {
                if k < o0.len() {
                    assert(before[k] == (o0[k], g0[k] as int));
                } else {
                    assert(after[k] == tail[k - before.len()]);
                }
            }
        }
        fi = fi + 1;
    }
    assert(fs.take(features.len() as int) =~= fs);
    if ungrouped.len() > 0 {
        let ghost before = tagged(fs);
        let ghost (o0, g0) = (order@, group_of@);
        append_group(&mut order, &mut group_of, ungrouped, fi);
        proof {
            let all = fs.push(ungrouped@);
            assert(all.drop_last() =~= fs);
            let after = tagged(all);
            let tail = ungrouped@.map_values(|v: usize| (v, fs.len() as int));
            assert(after =~= before + tail);
            assert forall|k: int| 0 <= k < order@.len() implies (order@[k], group_of@[k] as int)
                == #[trigger] after[k] by {
                if k < o0.len() {
                    assert(before[k] == (o0[k], g0[k] as int));
                } else {
                    assert(after[k] == tail[k - before.len()]);
                }
            }
        }
    }
    (order, group_of)
}
// ── the order `topo_order` picks ──────────────────────────────────────────

/// `t` lists every member once, each after all of its blockers among the
/// members: a blockers-first order.
pub open spec fn blockers_first(edges: Seq<(usize, usize)>, members: Set<usize>, t: Seq<usize>) -> bool {
    &&& t.to_set() == members
    &&& t.no_duplicates()
    &&& forall|k: int|
        0 <= k < t.len() ==> blockers_placed(edges, members, prefix_set(t, k), #[trigger] t[k])
}

proof fn lemma_prefix_sets_agree(a: Seq<usize>, b: Seq<usize>, k: int)
    requires
        0 <= k <= a.len(),
        k <= b.len(),
        a.take(k) == b.take(k),
    ensures
        prefix_set(a, k) == prefix_set(b, k),
{
}

/// When the members can be put in blockers-first order at all (the
/// dependencies among them have no cycle), `topo_order_spec`'s order is one,
/// and it is the least of them: where another blockers-first order first
/// differs from it, it has the larger task position.
pub proof fn lemma_topo_order_least(edges: Seq<(usize, usize)>, nodes: Seq<usize>, out: Seq<usize>, t: Seq<usize>)
    requires
        topo_order_spec(edges, nodes, out),
        blockers_first(edges, nodes.to_set(), t),
    ensures
        blockers_first(edges, nodes.to_set(), out),
        t != out ==> exists|k: int|
            0 <= k < out.len() && out.take(k) == t.take(k) && out[k] < t[k],
{
    let members = nodes.to_set();
    let m = choose|m: int|
        {
            &&& 0 <= m <= out.len()
            &&& greedy_prefix(edges, members, out, m)
            &&& forall|v: usize| !is_ready(edges, members, prefix_set(out, m), v)
            &&& forall|i: int, j: int| m <= i < j < out.len() ==> out[i] < out[j]
        };
    out.unique_seq_to_set();
    t.unique_seq_to_set();
    assert(out.len() == t.len());
    // The two orders agree on some first stretch; find where they part.
    let k = if t == out {
        out.len() as int
    } else {
        choose|k: int| 0 <= k < out.len() && out[k] != t[k] && forall|j: int| 0 <= j < k ==> out[j] == t[j]
    };
    if t != out {
        assert(exists|i: int| 0 <= i < out.len() && out[i] != t[i]) by {
            if forall|i: int| 0 <= i < out.len() ==> out[i] == t[i] {
                assert(out =~= t);
            }
        }
        let i0 = choose|i: int| 0 <= i < out.len() && out[i] != t[i];
        lemma_first_difference(out, t, i0);
    }
    assert(out.take(k) =~= t.take(k));
    // Up to `k` both orders place the same tasks; so `m` cannot stop before `k`.
    assert(m >= k || k == out.len()) by {
        if m < k {
            assert(out.take(m) =~= t.take(m));
            lemma_prefix_sets_agree(out, t, m);
            let v = t[m];
            assert(!prefix_set(t, m).contains(v)) by {
                if prefix_set(t, m).contains(v) {
                    let j = choose|j: int| 0 <= j < t.take(m).len() && t.take(m)[j] == v;
                    assert(t[j] == t[m]);
                }
            }
            assert(members.contains(v)) by {
                assert(t.to_set().contains(t[m]));
            }
            assert(is_ready(edges, members, prefix_set(out, m), v));
        }
    }
    if k < out.len() {
        assert(m > k) by {
            if m == k {
                lemma_prefix_sets_agree(out, t, k);
                let v = t[k];
                assert(!prefix_set(t, k).contains(v)) by {
                    if prefix_set(t, k).contains(v) {
                        let j = choose|j: int| 0 <= j < t.take(k).len() && t.take(k)[j] == v;
                        assert(t[j] == t[k]);
                    }
                }
                assert(members.contains(v)) by {
                    assert(t.to_set().contains(t[k]));
                }
                assert(is_ready(edges, members, prefix_set(out, k), v));
            }
        }
        lemma_prefix_sets_agree(out, t, k);
        let v = t[k];
        assert(!prefix_set(out, k).contains(v)) by {
            if prefix_set(t, k).contains(v) {
                let j = choose|j: int| 0 <= j < t.take(k).len() && t.take(k)[j] == v;
                assert(t[j] == t[k]);
            }
        }
        assert(members.contains(v)) by {
            assert(t.to_set().contains(t[k]));
        }
        assert(is_ready(edges, members, prefix_set(out, k), v));
        assert(out[k] <= v);
    }
    // No task is left over after the ready ones.
    assert(m == out.len()) by {
        if m < out.len() {
            lemma_stuck_impossible(edges, members, out, t, m);
        }
    }
}

proof fn lemma_first_difference(a: Seq<usize>, b: Seq<usize>, i0: int)
    requires
        a.len() == b.len(),
        0 <= i0 < a.len(),
        a[i0] != b[i0],
    ensures
        exists|k: int| 0 <= k < a.len() && a[k] != b[k] && forall|j: int| 0 <= j < k ==> a[j] == b[j],
    decreases i0,
{
    if exists|j: int| 0 <= j < i0 && a[j] != b[j] {
        let j = choose|j: int| 0 <= j < i0 && a[j] != b[j];
        lemma_first_difference(a, b, j);
    } else {
        assert(forall|j: int| 0 <= j < i0 ==> a[j] == b[j]);
    }
}

/// Where the first `m` tasks of `out` leave some over, a blockers-first
/// order `t` has its first left-over task ready.
proof fn lemma_stuck_impossible(edges: Seq<(usize, usize)>, members: Set<usize>, out: Seq<usize>, t: Seq<usize>, m: int)
    requires
        0 <= m < out.len(),
        out.to_set() == members,
        out.no_duplicates(),
        blockers_first(edges, members, t),
    ensures
        exists|v: usize| is_ready(edges, members, prefix_set(out, m), v),
{
    let placed = prefix_set(out, m);
    // The first task of `t` not yet placed.
    assert(exists|i: int| 0 <= i < t.len() && !placed.contains(t[i])) by {
        let v = out[m];
        assert(members.contains(v)) by {
            assert(out.to_set().contains(out[m]));
        }
        assert(t.to_set().contains(v));
        let i = choose|i: int| 0 <= i < t.len() && t[i] == v;
        assert(!placed.contains(v)) by {
            if placed.contains(v) {
                let j = choose|j: int| 0 <= j < out.take(m).len() && out.take(m)[j] == v;
                assert(out[j] == out[m]);
            }
        }
    }
    let i1 = choose|i: int| 0 <= i < t.len() && !placed.contains(t[i]);
    lemma_first_unplaced(t, placed, i1);
    let i = choose|i: int| 0 <= i < t.len() && !placed.contains(t[i]) && forall|j: int| 0 <= j < i ==> placed.contains(t[j]);
    let v = t[i];
    assert(members.contains(v)) by {
        assert(t.to_set().contains(t[i]));
    }
    assert(blockers_placed(edges, members, placed, v)) by {
        assert(blockers_placed(edges, members, prefix_set(t, i), t[i]));
        assert forall|k: int|
            0 <= k < edges.len() && (#[trigger] edges[k]).0 == v && members.contains(edges[k].1)
                implies placed.contains(edges[k].1) by {
            assert(prefix_set(t, i).contains(edges[k].1));
            let j = choose|j: int| 0 <= j < t.take(i).len() && t.take(i)[j] == edges[k].1;
            assert(t[j] == edges[k].1);
        }
    }
    assert(is_ready(edges, members, placed, v));
}

proof fn lemma_first_unplaced(t: Seq<usize>, placed: Set<usize>, i1: int)
    requires
        0 <= i1 < t.len(),
        !placed.contains(t[i1]),
    ensures
        exists|i: int| 0 <= i < t.len() && !placed.contains(t[i]) && forall|j: int| 0 <= j < i ==> placed.contains(t[j]),
    decreases i1,
{
    if exists|j: int| 0 <= j < i1 && !placed.contains(t[j]) {
        let j = choose|j: int| 0 <= j < i1 && !placed.contains(t[j]);
        lemma_first_unplaced(t, placed, j);
    }
}

} // verus!
