//! Directed graphs over node indices `0..n`, given as edge lists, and the
//! reachability they induce. Task dependencies are graphs of this kind: the
//! caller numbers the tasks and lists each `(from, to)` edge.

use vstd::prelude::*;
use vstd::set_lib::*;

verus! {

/// `edges` holds the edge `a -> b`.
pub open spec fn has_edge(edges: Seq<(usize, usize)>, a: int, b: int) -> bool {
    exists|k: int| 0 <= k < edges.len() && edges[k].0 == a && edges[k].1 == b
}

/// `p` is a walk along `edges`.
pub open spec fn is_walk(edges: Seq<(usize, usize)>, p: Seq<int>) -> bool {
    &&& p.len() >= 1
    &&& forall|k: int| 0 <= k < p.len() - 1 ==> has_edge(edges, #[trigger] p[k], p[k + 1])
}

/// `b` can be reached from `a` by following zero or more edges.
pub open spec fn reaches(edges: Seq<(usize, usize)>, a: int, b: int) -> bool {
    exists|p: Seq<int>| is_walk(edges, p) && p[0] == a && p.last() == b
}

/// Every endpoint of every edge lies in `0..n`.
pub open spec fn edges_within(edges: Seq<(usize, usize)>, n: nat) -> bool {
    forall|k: int| 0 <= k < edges.len() ==> (#[trigger] edges[k]).0 < n && edges[k].1 < n
}

/// `edges` with every edge also present reversed.
pub open spec fn symmetric(edges: Seq<(usize, usize)>) -> Seq<(usize, usize)> {
    edges + edges.map_values(|e: (usize, usize)| (e.1, e.0))
}

pub proof fn lemma_reaches_refl(edges: Seq<(usize, usize)>, a: int)
    ensures
        reaches(edges, a, a),
{
    let p = seq![a];
    assert(is_walk(edges, p));
    assert(p[0] == a && p.last() == a);
}

pub proof fn lemma_reaches_step(edges: Seq<(usize, usize)>, a: int, b: int, c: int)
    requires
        reaches(edges, a, b),
        has_edge(edges, b, c),
    ensures
        reaches(edges, a, c),
{
    let p = choose|p: Seq<int>| is_walk(edges, p) && p[0] == a && p.last() == b;
    let q = p.push(c);
    assert forall|k: int| 0 <= k < q.len() - 1 implies has_edge(edges, #[trigger] q[k], q[k + 1]) by {
        if k < p.len() - 1 {
            assert(q[k] == p[k] && q[k + 1] == p[k + 1]);
        } else {
            assert(q[k] == b && q[k + 1] == c);
        }
    }
    assert(is_walk(edges, q));
    assert(q[0] == a && q.last() == c);
}

/// Reachability composes.
pub proof fn lemma_reaches_trans(edges: Seq<(usize, usize)>, a: int, b: int, c: int)
    requires
        reaches(edges, a, b),
        reaches(edges, b, c),
    ensures
        reaches(edges, a, c),
{
    let p = choose|p: Seq<int>| is_walk(edges, p) && p[0] == a && p.last() == b;
    let q = choose|q: Seq<int>| is_walk(edges, q) && q[0] == b && q.last() == c;
    let w = p + q.drop_first();
    assert forall|k: int| 0 <= k < w.len() - 1 implies has_edge(edges, #[trigger] w[k], w[k + 1]) by {
        if k < p.len() - 1 {
            assert(w[k] == p[k] && w[k + 1] == p[k + 1]);
        } else if k == p.len() - 1 {
            assert(w[k] == q[0] && w[k + 1] == q[1]);
        } else {
            let j = k - p.len() + 1;
            assert(w[k] == q[j] && w[k + 1] == q[j + 1]);
        }
    }
    if q.len() == 1 {
        assert(w =~= p);
    } else {
        assert(w.last() == q.last());
    }
    assert(is_walk(edges, w) && w[0] == a && w.last() == c);
}

/// Reachability along `edges` carries over to any edge list holding all
/// of their edges.
pub proof fn lemma_reaches_mono(edges: Seq<(usize, usize)>, more: Seq<(usize, usize)>, a: int, b: int)
    requires
        reaches(edges, a, b),
        forall|x: int, y: int| has_edge(edges, x, y) ==> has_edge(more, x, y),
    ensures
        reaches(more, a, b),
{
    let p = choose|p: Seq<int>| is_walk(edges, p) && p[0] == a && p.last() == b;
    assert forall|k: int| 0 <= k < p.len() - 1 implies has_edge(more, #[trigger] p[k], p[k + 1]) by {
        assert(has_edge(edges, p[k], p[k + 1]));
    }
    assert(is_walk(more, p));
}

/// A node set that holds `a` and is closed under the edges holds every node
/// reachable from `a`.
pub proof fn lemma_closed_set_holds_reachable(
    edges: Seq<(usize, usize)>,
    c: Set<int>,
    a: int,
    b: int,
)
    requires
        c.contains(a),
        forall|k: int| 0 <= k < edges.len() && c.contains(#[trigger] edges[k].0 as int) ==> c.contains(
            edges[k].1 as int,
        ),
        reaches(edges, a, b),
    ensures
        c.contains(b),
{
    let p = choose|p: Seq<int>| is_walk(edges, p) && p[0] == a && p.last() == b;
    assert forall|i: int| 0 <= i < p.len() implies c.contains(#[trigger] p[i]) by {
        lemma_walk_prefix_in_set(edges, c, p, i);
    }
    assert(c.contains(p[p.len() - 1]));
}

proof fn lemma_walk_prefix_in_set(edges: Seq<(usize, usize)>, c: Set<int>, p: Seq<int>, i: int)
    requires
        is_walk(edges, p),
        c.contains(p[0]),
        forall|k: int| 0 <= k < edges.len() && c.contains(#[trigger] edges[k].0 as int) ==> c.contains(
            edges[k].1 as int,
        ),
        0 <= i < p.len(),
    ensures
        c.contains(p[i]),
    decreases i,
{
    if i > 0 {
        lemma_walk_prefix_in_set(edges, c, p, i - 1);
        assert(has_edge(edges, p[i - 1], p[i]));
        let k = choose|k: int| 0 <= k < edges.len() && edges[k].0 == p[i - 1] && edges[k].1 == p[i];
        assert(c.contains(edges[k].0 as int));
    }
}

/// The set of `true` positions of a flag vector.
pub open spec fn marked(v: Seq<bool>) -> Set<int> {
    Set::new(|i: int| 0 <= i < v.len() && v[i])
}

proof fn lemma_marked_bounded(v: Seq<bool>)
    ensures
        marked(v).finite(),
        marked(v).len() <= v.len(),
{
    lemma_int_range(0, v.len() as int);
    assert(marked(v).subset_of(set_int_range(0, v.len() as int)));
    lemma_len_subset(marked(v), set_int_range(0, v.len() as int));
}

proof fn lemma_pop_contains(old: Seq<usize>, x: usize)
    requires
        old.len() > 0,
        old.contains(x),
    ensures
        x == old.last() || old.drop_last().contains(x),
{
    let w = choose|w: int| 0 <= w < old.len() && old[w] == x;
    if w < old.len() - 1 {
        assert(old.drop_last()[w] == x);
    }
}

proof fn lemma_prefix_contains(a: Seq<usize>, b: Seq<usize>, x: usize)
    requires
        a.len() <= b.len(),
        b.subrange(0, a.len() as int) == a,
        a.contains(x),
    ensures
        b.contains(x),
{
    let w = choose|w: int| 0 <= w < a.len() && a[w] == x;
    assert(b.subrange(0, a.len() as int)[w] == b[w]);
}

/// Push onto `stack` the target of every edge leaving `cur`.
fn push_successors(edges: &Vec<(usize, usize)>, cur: usize, stack: &mut Vec<usize>)
    ensures
        final(stack)@.len() >= old(stack)@.len(),
        final(stack)@.subrange(0, old(stack)@.len() as int) == old(stack)@,
        forall|j: int|
            old(stack)@.len() <= j < final(stack)@.len() ==> has_edge(
                edges@,
                cur as int,
                #[trigger] final(stack)@[j] as int,
            ),
        forall|j: int|
            0 <= j < edges@.len() && #[trigger] edges@[j].0 == cur ==> final(stack)@.contains(
                edges@[j].1,
            ),
{
    let ghost init = stack@;
    let mut k: usize = 0;
    while k < edges.len()
        invariant
            k <= edges@.len(),
            stack@.len() >= init.len(),
            stack@.subrange(0, init.len() as int) == init,
            forall|j: int|
                init.len() <= j < stack@.len() ==> has_edge(edges@, cur as int, #[trigger] stack@[j] as int),
            forall|j: int| 0 <= j < k && #[trigger] edges@[j].0 == cur ==> stack@.contains(edges@[j].1),
        decreases edges@.len() - k,
    {
        let (a, b) = edges[k];
        let ghost before = stack@;
        if a == cur {
            stack.push(b);
            proof {
                assert(stack@.subrange(0, init.len() as int) =~= before.subrange(0, init.len() as int));
                assert(stack@[stack@.len() - 1] == b);
                assert(has_edge(edges@, cur as int, b as int)) by {
                    assert(edges@[k as int].0 == cur && edges@[k as int].1 == b);
                }
                assert forall|j: int| 0 <= j < k + 1 && #[trigger] edges@[j].0 == cur implies stack@.contains(
                    edges@[j].1,
                ) by {
                    if j < k {
                        assert(stack@.subrange(0, before.len() as int) =~= before);
                        lemma_prefix_contains(before, stack@, edges@[j].1);
                    }
                }
            }
        }
        k = k + 1;
    }
}

/// Depth-first search from `start` along `edges`, stopping early at `stop`
/// when `stop` is `Some`. Returns the visited flags and whether `stop` was met.
fn search(n: usize, edges: &Vec<(usize, usize)>, start: usize, stop: Option<usize>) -> (r: (
    Vec<bool>,
    bool,
))
    requires
        start < n,
        edges_within(edges@, n as nat),
    ensures
        r.1 == (stop matches Some(t) && reaches(edges@, start as int, t as int)),
        !r.1 ==> r.0@.len() == n && forall|v: int|
            0 <= v < n ==> (r.0@[v] == reaches(edges@, start as int, v)),
{
    let mut visited: Vec<bool> = Vec::new();
    let mut i: usize = 0;
    while i < n
        invariant
            i <= n,
            visited@.len() == i,
            forall|k: int| 0 <= k < i ==> !visited@[k],
        decreases n - i,
    {
        visited.push(false);
        i = i + 1;
    }
    proof {
        assert(marked(visited@) =~= Set::<int>::empty());
    }
    let mut stack: Vec<usize> = Vec::new();
    stack.push(start);
    proof {
        lemma_reaches_refl(edges@, start as int);
        assert(stack@[0] == start);
    }
    while stack.len() > 0
        invariant
            start < n,
            edges_within(edges@, n as nat),
            visited@.len() == n,
            forall|k: int| 0 <= k < stack@.len() ==> (#[trigger] stack@[k]) < n && reaches(
                edges@,
                start as int,
                stack@[k] as int,
            ),
            forall|v: int| 0 <= v < n && #[trigger] visited@[v] ==> reaches(edges@, start as int, v),
            forall|v: int|
                0 <= v < n && #[trigger] visited@[v] ==> !(stop matches Some(t) && t == v),
            visited@[start as int] || stack@.contains(start),
            forall|k: int|
                0 <= k < edges@.len() && #[trigger] visited@[edges@[k].0 as int] ==> visited@[edges@[k].1 as int]
                    || stack@.contains(edges@[k].1),
        decreases n - marked(visited@).len(), stack@.len(),
    {
        proof {
            lemma_marked_bounded(visited@);
        }
        let ghost old_stack = stack@;
        let cur = stack.pop().unwrap();
        proof {
            assert(stack@ == old_stack.drop_last());
            assert(cur == old_stack.last());
            assert(cur < n && reaches(edges@, start as int, cur as int)) by {
                assert(old_stack[old_stack.len() - 1] == cur);
            }
        }
        if let Some(t) = stop {
            if cur == t {
                return (visited, true);
            }
        }
        if visited[cur] {
            proof {
                if !visited@[start as int] {
                    lemma_pop_contains(old_stack, start);
                }
                assert forall|k: int|
                    0 <= k < edges@.len() && #[trigger] visited@[edges@[k].0 as int] implies visited@[edges@[k].1 as int]
                    || stack@.contains(edges@[k].1) by {
                    if !visited@[edges@[k].1 as int] {
                        lemma_pop_contains(old_stack, edges@[k].1);
                    }
                }
            }
            continue;
        }
        let ghost before = visited@;
        visited.set(cur, true);
        proof {
            assert(marked(visited@) =~= marked(before).insert(cur as int));
            assert(!marked(before).contains(cur as int));
            lemma_marked_bounded(visited@);
            assert(marked(visited@).len() == marked(before).len() + 1);
        }
        let ghost mid = stack@;
        push_successors(edges, cur, &mut stack);
        proof {
            assert forall|x: usize| mid.contains(x) implies stack@.contains(x) by {
                lemma_prefix_contains(mid, stack@, x);
            }
            assert forall|k: int| 0 <= k < stack@.len() implies (#[trigger] stack@[k]) < n && reaches(
                edges@,
                start as int,
                stack@[k] as int,
            ) by {
                if k < mid.len() {
                    assert(stack@.subrange(0, mid.len() as int)[k] == stack@[k]);
                } else {
                    let e = choose|e: int|
                        0 <= e < edges@.len() && edges@[e].0 == cur && edges@[e].1 == stack@[k];
                    assert(edges@[e].1 < n);
                    lemma_reaches_step(edges@, start as int, cur as int, stack@[k] as int);
                }
            }
            if !visited@[start as int] {
                lemma_pop_contains(old_stack, start);
            }
            assert forall|k: int|
                0 <= k < edges@.len() && #[trigger] visited@[edges@[k].0 as int] implies visited@[edges@[k].1 as int]
                || stack@.contains(edges@[k].1) by {
                let a = edges@[k].0;
                let b = edges@[k].1;
                if a != cur {
                    assert(before[a as int]);
                    if !before[b as int] {
                        lemma_pop_contains(old_stack, b);
                        if b != cur {
                            assert(mid.contains(b));
                        }
                    }
                }
            }
        }
    }
    proof {
        assert forall|v: int| 0 <= v < n implies (visited@[v] == reaches(edges@, start as int, v)) by {
            if reaches(edges@, start as int, v) {
                let c = Set::new(|x: int| 0 <= x < n && visited@[x]);
                assert forall|k: int|
                    0 <= k < edges@.len() && c.contains(#[trigger] edges@[k].0 as int) implies c.contains(
                    edges@[k].1 as int,
                ) by {
                    assert(visited@[edges@[k].0 as int]);
                }
                lemma_closed_set_holds_reachable(edges@, c, start as int, v);
            }
        }
        if let Some(t) = stop {
            if reaches(edges@, start as int, t as int) {
                assert(t < n) by {
                    let p = choose|p: Seq<int>| is_walk(edges@, p) && p[0] == start && p.last() == t;
                    if p.len() > 1 {
                        assert(has_edge(edges@, p[p.len() - 2], p[p.len() - 1]));
                    }
                }
                assert(visited@[t as int]);
            }
        }
    }
    (visited, false)
}

/// Which nodes of `0..n` can be reached from `start` along `edges`.
pub fn reachable_from(n: usize, edges: &Vec<(usize, usize)>, start: usize) -> (r: Vec<bool>)
    requires
        start < n,
        edges_within(edges@, n as nat),
    ensures
        r@.len() == n,
        forall|v: int| 0 <= v < n ==> (r@[v] == reaches(edges@, start as int, v)),
{
    let (v, _) = search(n, edges, start, None);
    v
}

/// Is `target` reachable from `start` along `edges`?
pub fn is_reachable(n: usize, edges: &Vec<(usize, usize)>, start: usize, target: usize) -> (r: bool)
    requires
        start < n,
        target < n,
        edges_within(edges@, n as nat),
    ensures
        r == reaches(edges@, start as int, target as int),
{
    let (_, found) = search(n, edges, start, Some(target));
    found
}

/// `edges` followed by each of its edges reversed.
pub fn symmetric_edges(edges: &Vec<(usize, usize)>) -> (r: Vec<(usize, usize)>)
    ensures
        r@ == symmetric(edges@),
{
    let mut r: Vec<(usize, usize)> = Vec::new();
    let mut k: usize = 0;
    while k < edges.len()
        invariant
            k <= edges@.len(),
            r@ == edges@.subrange(0, k as int),
        decreases edges.len() - k,
    {
        r.push(edges[k]);
        assert(edges@.subrange(0, k + 1) =~= edges@.subrange(0, k as int).push(edges@[k as int]));
        k = k + 1;
    }
    assert(edges@.subrange(0, edges@.len() as int) =~= edges@);
    assert(edges@.subrange(0, 0).map_values(|e: (usize, usize)| (e.1, e.0)) =~= Seq::empty());
    assert(r@ =~= edges@ + edges@.subrange(0, 0).map_values(|e: (usize, usize)| (e.1, e.0)));
    k = 0;
    while k < edges.len()
        invariant
            k <= edges@.len(),
            r@ == edges@ + edges@.subrange(0, k as int).map_values(|e: (usize, usize)| (e.1, e.0)),
        decreases edges.len() - k,
    {
        let (a, b) = edges[k];
        r.push((b, a));
        proof {
            assert(edges@.subrange(0, k + 1).map_values(|e: (usize, usize)| (e.1, e.0)) =~= edges@.subrange(
                0,
                k as int,
            ).map_values(|e: (usize, usize)| (e.1, e.0)).push((b, a)));
        }
        k = k + 1;
    }
    assert(edges@.subrange(0, edges@.len() as int) =~= edges@);
    r
}

} // verus!
