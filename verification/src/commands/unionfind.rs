//! Disjoint sets over task positions, as parent links with path halving:
//! the board's grouping of tasks into features.

use vstd::prelude::*;

verus! {

/// One parent step from `x` (a position out of range stays put).
pub open spec fn step_of(p: Seq<usize>, x: int) -> int {
    if 0 <= x < p.len() {
        p[x] as int
    } else {
        x
    }
}

/// Where `k` parent steps from `x` lead.
pub open spec fn follow(p: Seq<usize>, x: int, k: nat) -> int
    decreases k,
{
    if k == 0 {
        x
    } else {
        step_of(p, follow(p, x, (k - 1) as nat))
    }
}

/// `r` is its own parent.
pub open spec fn is_root(p: Seq<usize>, r: int) -> bool {
    0 <= r < p.len() && p[r] == r
}

/// Parent links that climb strictly in `rank` (bounded by `b`): they form a
/// forest, and every walk ends at a root.
pub open spec fn ranked(p: Seq<usize>, rank: Seq<nat>, b: nat) -> bool {
    &&& rank.len() == p.len()
    &&& forall|i: int|
        0 <= i < p.len() ==> (#[trigger] p[i]) < p.len() && rank[i] <= b && (p[i] != i ==> rank[p[i] as int]
            > rank[i])
}

/// The parent links form a forest.
pub open spec fn is_forest(p: Seq<usize>) -> bool {
    exists|rank: Seq<nat>, b: nat| ranked(p, rank, b)
}

/// `r` is the root `x`'s parent links lead to.
pub open spec fn root_of(p: Seq<usize>, x: int, r: int) -> bool {
    is_root(p, r) && exists|k: nat| #[trigger] follow(p, x, k) == r
}

/// The root of `x` (the one there is, in a forest).
pub open spec fn root(p: Seq<usize>, x: int) -> int {
    choose|r: int| root_of(p, x, r)
}

proof fn lemma_follow_shift(p: Seq<usize>, x: int, k: nat)
    ensures
        follow(p, x, k + 1) == follow(p, step_of(p, x), k),
    decreases k,
{
    if k > 0 {
        lemma_follow_shift(p, x, (k - 1) as nat);
        assert(follow(p, x, k + 1) == step_of(p, follow(p, x, k)));
        assert(follow(p, step_of(p, x), k) == step_of(p, follow(p, step_of(p, x), (k - 1) as nat)));
    } else {
        assert(follow(p, x, 1) == step_of(p, follow(p, x, 0)));
    }
}

proof fn lemma_follow_add(p: Seq<usize>, x: int, a: nat, b: nat)
    ensures
        follow(p, x, a + b) == follow(p, follow(p, x, a), b),
    decreases b,
{
    if b > 0 {
        lemma_follow_add(p, x, a, (b - 1) as nat);
        assert((a + b - 1) as nat == a + (b - 1) as nat);
    }
}

proof fn lemma_root_fixed(p: Seq<usize>, r: int, k: nat)
    requires
        is_root(p, r),
    ensures
        follow(p, r, k) == r,
    decreases k,
{
    if k > 0 {
        lemma_root_fixed(p, r, (k - 1) as nat);
    }
}

proof fn lemma_follow_in_range(p: Seq<usize>, rank: Seq<nat>, b: nat, x: int, k: nat)
    requires
        ranked(p, rank, b),
        0 <= x < p.len(),
    ensures
        0 <= follow(p, x, k) < p.len(),
    decreases k,
{
    if k > 0 {
        lemma_follow_in_range(p, rank, b, x, (k - 1) as nat);
        let y = follow(p, x, (k - 1) as nat);
        assert(p[y] < p.len());
    }
}

proof fn lemma_reach_root(p: Seq<usize>, rank: Seq<nat>, b: nat, x: int)
    requires
        ranked(p, rank, b),
        0 <= x < p.len(),
    ensures
        is_root(p, follow(p, x, (b - rank[x]) as nat)),
    decreases b - rank[x],
{
    let m = (b - rank[x]) as nat;
    if p[x] == x {
        lemma_root_fixed(p, x, m);
    } else {
        let q = p[x] as int;
        assert(p[x] < p.len());
        assert(rank[q] > rank[x]);
        assert(p[q] < p.len() && rank[q] <= b);
        lemma_reach_root(p, rank, b, q);
        let mq = (b - rank[q]) as nat;
        lemma_follow_shift(p, x, mq);
        assert(step_of(p, x) == q);
        let r = follow(p, q, mq);
        lemma_follow_add(p, x, mq + 1, (m - mq - 1) as nat);
        lemma_root_fixed(p, r, (m - mq - 1) as nat);
        assert(mq + 1 + (m - mq - 1) as nat == m);
    }
}

proof fn lemma_root_unique(p: Seq<usize>, x: int, r1: int, r2: int)
    requires
        root_of(p, x, r1),
        root_of(p, x, r2),
    ensures
        r1 == r2,
{
    let k1 = choose|k: nat| #[trigger] follow(p, x, k) == r1;
    let k2 = choose|k: nat| #[trigger] follow(p, x, k) == r2;
    if k1 <= k2 {
        lemma_follow_add(p, x, k1, (k2 - k1) as nat);
        lemma_root_fixed(p, r1, (k2 - k1) as nat);
        assert(k1 + (k2 - k1) as nat == k2);
    } else {
        lemma_follow_add(p, x, k2, (k1 - k2) as nat);
        lemma_root_fixed(p, r2, (k1 - k2) as nat);
        assert(k2 + (k1 - k2) as nat == k1);
    }
}

/// In a forest every position has exactly one root.
pub proof fn lemma_root(p: Seq<usize>, rank: Seq<nat>, b: nat, x: int)
    requires
        ranked(p, rank, b),
        0 <= x < p.len(),
    ensures
        root_of(p, x, root(p, x)),
        is_root(p, root(p, x)),
        forall|r: int| root_of(p, x, r) ==> r == root(p, x),
{
    lemma_reach_root(p, rank, b, x);
    let r = follow(p, x, (b - rank[x]) as nat);
    assert(root_of(p, x, r));
    assert forall|r2: int| root_of(p, x, r2) implies r2 == root(p, x) by {
        lemma_root_unique(p, x, r2, root(p, x));
    }
}

proof fn lemma_forest_root(p: Seq<usize>, x: int)
    requires
        is_forest(p),
        0 <= x < p.len(),
    ensures
        root_of(p, x, root(p, x)),
        is_root(p, root(p, x)),
        forall|r: int| root_of(p, x, r) ==> r == root(p, x),
{
    let (rank, b) = choose|rank: Seq<nat>, b: nat| ranked(p, rank, b);
    lemma_root(p, rank, b, x);
}

// ── path halving ──────────────────────────────────────────────────────────

/// Each walk after halving at `x` visits a subset of the nodes of the walk
/// before, in order.
proof fn lemma_halving_subwalk(p: Seq<usize>, x: int, y: int, k: nat)
    requires
        0 <= x < p.len(),
        p[x] < p.len(),
    ensures
        exists|k2: nat| k2 >= k && #[trigger] follow(p, y, k2) == follow(p.update(x, p[p[x] as int]), y, k),
    decreases k,
{
    let p2 = p.update(x, p[p[x] as int]);
    if k == 0 {
        assert(follow(p, y, 0) == follow(p2, y, 0));
    } else {
        lemma_halving_subwalk(p, x, y, (k - 1) as nat);
        let k1 = choose|k2: nat| k2 >= (k - 1) as nat && #[trigger] follow(p, y, k2) == follow(p2, y, (k - 1) as nat);
        let n = follow(p, y, k1);
        if n == x {
            assert(follow(p, y, k1 + 1) == p[x] as int);
            assert(follow(p, y, k1 + 2) == step_of(p, p[x] as int));
            assert(follow(p2, y, k) == step_of(p2, x));
            assert(follow(p, y, k1 + 2) == follow(p2, y, k));
        } else {
            assert(follow(p, y, k1 + 1) == step_of(p, n));
            assert(step_of(p, n) == step_of(p2, n));
            assert(follow(p, y, k1 + 1) == follow(p2, y, k));
        }
    }
}

/// Halving at a non-root `x` keeps the forest and every position's root.
proof fn lemma_halving(p: Seq<usize>, rank: Seq<nat>, b: nat, x: int)
    requires
        ranked(p, rank, b),
        0 <= x < p.len(),
        p[x] != x,
    ensures
        ranked(p.update(x, p[p[x] as int]), rank, b),
        p.update(x, p[p[x] as int])[x] != x,
        forall|y: int, z: int|
            0 <= y < p.len() ==> (root_of(p, y, z) <==> root_of(p.update(x, p[p[x] as int]), y, z)),
{
    let q = p[x] as int;
    let p2 = p.update(x, p[q]);
    assert(p[x] < p.len());
    assert(p[q] < p.len());
    assert(rank[q] > rank[x]);
    if p[q] != q {
        assert(rank[p[q] as int] > rank[q]);
    }
    assert(p2[x] != x);
    assert(ranked(p2, rank, b)) by {
        assert forall|i: int| 0 <= i < p2.len() implies (#[trigger] p2[i]) < p2.len() && rank[i] <= b && (
        p2[i] != i ==> rank[p2[i] as int] > rank[i]) by {
            if i == x {
                if p[q] != q {
                    assert(rank[p[q] as int] > rank[q]);
                }
            } else {
                assert(p2[i] == p[i]);
            }
        }
    }
    assert forall|z: int| is_root(p, z) <==> is_root(p2, z) by {
        if z == x {
        } else if 0 <= z < p.len() {
            assert(p2[z] == p[z]);
        }
    }
    assert forall|y: int, z: int| 0 <= y < p.len() implies (root_of(p, y, z) <==> root_of(p2, y, z)) by {
        lemma_reach_root(p2, rank, b, y);
        let kk = (b - rank[y]) as nat;
        let z2 = follow(p2, y, kk);
        lemma_halving_subwalk(p, x, y, kk);
        let k2 = choose|k2: nat| k2 >= kk && #[trigger] follow(p, y, k2) == follow(p2, y, kk);
        assert(root_of(p, y, z2));
        assert(root_of(p2, y, z2));
        if root_of(p, y, z) {
            lemma_root_unique(p, y, z, z2);
        }
        if root_of(p2, y, z) {
            lemma_root_unique(p2, y, z, z2);
        }
    }
}

/// The root of `x`, halving the path to it on the way (each visited
/// position is relinked to its grandparent). Every position keeps its root.
pub fn find(parent: &mut Vec<usize>, x: usize) -> (r: usize)
    requires
        is_forest(old(parent)@),
        x < old(parent)@.len(),
    ensures
        final(parent)@.len() == old(parent)@.len(),
        is_forest(final(parent)@),
        r == root(old(parent)@, x as int),
        forall|y: int, z: int|
            0 <= y < old(parent)@.len() ==> (root_of(old(parent)@, y, z) <==> root_of(final(parent)@, y, z)),
{
    let ghost start = parent@;
    let ghost (rank, b) = choose|rank: Seq<nat>, b: nat| ranked(start, rank, b);
    proof {
        lemma_root(start, rank, b, x as int);
    }
    let ghost target = root(start, x as int);
    let mut x = x;
    while parent[x] != x
        invariant
            parent@.len() == start.len(),
            ranked(parent@, rank, b),
            0 <= x < parent@.len(),
            root_of(parent@, x as int, target),
            forall|y: int, z: int| 0 <= y < start.len() ==> (root_of(start, y, z) <==> root_of(parent@, y, z)),
        decreases b - rank[x as int],
    {
        let ghost p = parent@;
        let px = parent[x];
        let gp = parent[px];
        proof {
            assert(p[x as int] < p.len());
            lemma_halving(p, rank, b, x as int);
        }
        parent.set(x, gp);
        proof {
            let p2 = parent@;
            assert(p2 == p.update(x as int, p[p[x as int] as int]));
            assert(root_of(p2, x as int, target));
            let k = choose|k: nat| #[trigger] follow(p2, x as int, k) == target;
            if k == 0 {
                assert(is_root(p2, x as int));
            }
            lemma_follow_shift(p2, x as int, (k - 1) as nat);
            assert(follow(p2, gp as int, (k - 1) as nat) == target);
            assert(rank[gp as int] > rank[x as int]);
            assert(p2[gp as int] < p2.len() && rank[gp as int] <= b);
        }
        x = gp;
    }
    proof {
        assert(root_of(parent@, x as int, x as int)) by {
            assert(follow(parent@, x as int, 0) == x);
        }
        lemma_root_unique(parent@, x as int, x as int, target);
        assert(is_forest(parent@));
    }
    x
}

// ── linking ───────────────────────────────────────────────────────────────

proof fn lemma_same_walk(p: Seq<usize>, ra: int, rb: int, y: int, j: nat)
    requires
        0 <= ra < p.len(),
        forall|i: nat| i < j ==> #[trigger] follow(p, y, i) != ra,
    ensures
        follow(p.update(ra, rb as usize), y, j) == follow(p, y, j),
    decreases j,
{
    if j > 0 {
        lemma_same_walk(p, ra, rb, y, (j - 1) as nat);
        assert(follow(p, y, (j - 1) as nat) != ra);
    }
}

proof fn lemma_first_hit(p: Seq<usize>, y: int, t: int, k: nat)
    requires
        follow(p, y, k) == t,
    ensures
        exists|j: nat| j <= k && #[trigger] follow(p, y, j) == t && forall|i: nat| i < j ==> #[trigger] follow(p, y, i) != t,
    decreases k,
{
    if exists|i: nat| i < k && #[trigger] follow(p, y, i) == t {
        let i = choose|i: nat| i < k && #[trigger] follow(p, y, i) == t;
        lemma_first_hit(p, y, t, i);
    } else {
        assert(forall|i: nat| i < k ==> #[trigger] follow(p, y, i) != t);
    }
}

/// Linking root `ra` under root `rb` keeps a forest; the positions that
/// had root `ra` now have root `rb`, the others keep theirs.
proof fn lemma_link(p: Seq<usize>, rank: Seq<nat>, b: nat, ra: int, rb: int)
    requires
        ranked(p, rank, b),
        is_root(p, ra),
        is_root(p, rb),
        ra != rb,
    ensures
        ranked(
            p.update(ra, rb as usize),
            rank.update(rb, if rank[rb] > rank[ra] { rank[rb] } else { rank[ra] + 1 }),
            if b > rank[ra] + 1 { b } else { rank[ra] + 1 },
        ),
        forall|y: int|
            0 <= y < p.len() ==> root_of(
                p.update(ra, rb as usize),
                y,
                if root(p, y) == ra {
                    rb
                } else {
                    root(p, y)
                },
            ),
{
    let p2 = p.update(ra, rb as usize);
    let nr: nat = if rank[rb] > rank[ra] {
        rank[rb]
    } else {
        rank[ra] + 1
    };
    let rank2 = rank.update(rb, nr);
    let b2: nat = if b > rank[ra] + 1 {
        b
    } else {
        rank[ra] + 1
    };
    assert(ranked(p2, rank2, b2)) by {
        assert forall|i: int| 0 <= i < p2.len() implies (#[trigger] p2[i]) < p2.len() && rank2[i] <= b2 && (
        p2[i] != i ==> rank2[p2[i] as int] > rank2[i]) by {
            if i == ra {
                assert(p2[i] == rb);
            } else if i == rb {
                assert(p2[i] == p[i]);
            } else {
                assert(p2[i] == p[i]);
                if p[i] != i {
                    assert(rank[p[i] as int] > rank[i]);
                }
            }
        }
    }
    assert forall|y: int| 0 <= y < p.len() implies root_of(
        p2,
        y,
        if root(p, y) == ra {
            rb
        } else {
            root(p, y)
        },
    ) by {
        lemma_root(p, rank, b, y);
        let z0 = root(p, y);
        let k0 = choose|k: nat| #[trigger] follow(p, y, k) == z0;
        if z0 == ra {
            lemma_first_hit(p, y, ra, k0);
            let j = choose|j: nat| j <= k0 && #[trigger] follow(p, y, j) == ra && forall|i: nat| i < j ==> #[trigger] follow(p, y, i) != ra;
            lemma_same_walk(p, ra, rb, y, j);
            assert(follow(p2, y, j + 1) == step_of(p2, ra));
            assert(follow(p2, y, j + 1) == rb);
            assert(is_root(p2, rb));
        } else {
            assert forall|i: nat| i < k0 implies #[trigger] follow(p, y, i) != ra by {
                if follow(p, y, i) == ra {
                    lemma_follow_add(p, y, i, (k0 - i) as nat);
                    lemma_root_fixed(p, ra, (k0 - i) as nat);
                    assert(i + (k0 - i) as nat == k0);
                }
            }
            lemma_same_walk(p, ra, rb, y, k0);
            assert(follow(p2, y, k0) == z0);
            assert(p2[z0] == p[z0]);
            assert(is_root(p2, z0));
        }
    }
}

/// Merge the sets holding `a` and `b`: afterwards every position that
/// shared `a`'s root has `b`'s root; the others keep theirs.
pub fn union(parent: &mut Vec<usize>, a: usize, b: usize)
    requires
        is_forest(old(parent)@),
        a < old(parent)@.len(),
        b < old(parent)@.len(),
    ensures
        final(parent)@.len() == old(parent)@.len(),
        is_forest(final(parent)@),
        forall|y: int|
            0 <= y < old(parent)@.len() ==> #[trigger] root(final(parent)@, y) == (if root(old(parent)@, y) == root(
                old(parent)@,
                a as int,
            ) {
                root(old(parent)@, b as int)
            } else {
                root(old(parent)@, y)
            }),
{
    let ghost start = parent@;
    let ra = find(parent, a);
    let rb = find(parent, b);
    let ghost mid = parent@;
    proof {
        assert forall|y: int| 0 <= y < start.len() implies root(mid, y) == root(start, y) by {
            lemma_forest_root(start, y);
            lemma_forest_root(mid, y);
            assert(root_of(mid, y, root(start, y)));
        }
        lemma_forest_root(mid, a as int);
        lemma_forest_root(mid, b as int);
    }
    if ra != rb {
        let ghost (rank, bd) = choose|rank: Seq<nat>, bd: nat| ranked(mid, rank, bd);
        parent.set(ra, rb);
        proof {
            assert(is_root(mid, ra as int));
            assert(is_root(mid, rb as int));
            lemma_link(mid, rank, bd, ra as int, rb as int);
            assert(parent@ == mid.update(ra as int, rb));
            let nr: nat = if rank[rb as int] > rank[ra as int] {
                rank[rb as int]
            } else {
                rank[ra as int] + 1
            };
            let b2: nat = if bd > rank[ra as int] + 1 {
                bd
            } else {
                rank[ra as int] + 1
            };
            assert(ranked(parent@, rank.update(rb as int, nr), b2));
            assert forall|y: int| 0 <= y < start.len() implies #[trigger] root(parent@, y) == (if root(start, y)
                == root(start, a as int) {
                root(start, b as int)
            } else {
                root(start, y)
            }) by {
                lemma_root(parent@, rank.update(rb as int, nr), b2, y);
                lemma_forest_root(mid, y);
            }
        }
    } else {
        proof {
            assert forall|y: int| 0 <= y < start.len() implies #[trigger] root(parent@, y) == (if root(start, y)
                == root(start, a as int) {
                root(start, b as int)
            } else {
                root(start, y)
            }) by {
                lemma_forest_root(mid, y);
            }
        }
    }
}

} // verus!

verus! {

use crate::graph::{edges_within, has_edge, lemma_closed_set_holds_reachable, lemma_reaches_mono,
    lemma_reaches_refl, lemma_reaches_step, lemma_reaches_trans, reaches, symmetric};

proof fn lemma_sym_grows(edges: Seq<(usize, usize)>, k: int)
    requires
        0 <= k < edges.len(),
    ensures
        forall|x: int, y: int| has_edge(symmetric(edges.take(k)), x, y) ==> has_edge(
            symmetric(edges.take(k + 1)),
            x,
            y,
        ),
        has_edge(symmetric(edges.take(k + 1)), edges[k].0 as int, edges[k].1 as int),
        has_edge(symmetric(edges.take(k + 1)), edges[k].1 as int, edges[k].0 as int),
{
    let s0 = symmetric(edges.take(k));
    let s1 = symmetric(edges.take(k + 1));
    let t0 = edges.take(k);
    let t1 = edges.take(k + 1);
    assert forall|x: int, y: int| has_edge(s0, x, y) implies has_edge(s1, x, y) by {
        let j = choose|j: int| 0 <= j < s0.len() && s0[j].0 == x && s0[j].1 == y;
        if j < k {
            assert(s0[j] == t0[j]);
            assert(s1[j] == t1[j]);
            assert(t1[j] == t0[j]);
        } else {
            let m = j - k;
            assert(s0[j] == (t0[m].1, t0[m].0));
            assert(s1[k + 1 + m] == (t1[m].1, t1[m].0));
            assert(t1[m] == t0[m]);
        }
    }
    assert(s1[k] == t1[k]);
    assert(s1[k + 1 + k] == (t1[k].1, t1[k].0));
}

/// A representative for each position `0..n`: two positions get the same
/// one exactly when dependency edges (taken in either direction) connect
/// them. The sets are built by uniting the endpoints of every edge.
pub fn component_roots(n: usize, edges: &Vec<(usize, usize)>) -> (r: Vec<usize>)
    requires
        edges_within(edges@, n as nat),
    ensures
        r@.len() == n,
        forall|i: int| 0 <= i < n ==> r@[i] < n,
        forall|i: int, j: int|
            0 <= i < n && 0 <= j < n ==> (r@[i] == r@[j] <==> reaches(symmetric(edges@), i, j)),
{
    let mut parent: Vec<usize> = Vec::new();
    let mut i: usize = 0;
    while i < n
        invariant
            i <= n,
            parent@.len() == i,
            forall|k: int| 0 <= k < i ==> parent@[k] == k,
        decreases n - i,
    {
        parent.push(i);
        i = i + 1;
    }
    proof {
        let rank = Seq::new(n as nat, |k: int| 0nat);
        assert(ranked(parent@, rank, 0));
        assert forall|y: int| 0 <= y < n implies root(parent@, y) == y by {
            lemma_root(parent@, rank, 0, y);
            assert(root_of(parent@, y, y)) by {
                assert(follow(parent@, y, 0) == y);
            }
        }
        assert forall|y: int| 0 <= y < n implies reaches(symmetric(edges@.take(0)), y, root(parent@, y))
            && reaches(symmetric(edges@.take(0)), root(parent@, y), y) by {
            lemma_reaches_refl(symmetric(edges@.take(0)), y);
        }
    }
    let mut k: usize = 0;
    while k < edges.len()
        invariant
            k <= edges@.len(),
            parent@.len() == n,
            edges_within(edges@, n as nat),
            is_forest(parent@),
            forall|e: int|
                0 <= e < k ==> #[trigger] root(parent@, edges@[e].0 as int) == root(parent@, edges@[e].1 as int),
            forall|y: int|
                0 <= y < n ==> reaches(symmetric(edges@.take(k as int)), y, #[trigger] root(parent@, y))
                    && reaches(symmetric(edges@.take(k as int)), root(parent@, y), y),
        decreases edges@.len() - k,
    {
        let (a, b) = edges[k];
        let ghost before = parent@;
        let ghost s0 = symmetric(edges@.take(k as int));
        let ghost s1 = symmetric(edges@.take(k + 1));
        proof {
            assert(edges@[k as int].0 < n && edges@[k as int].1 < n);
        }
        union(&mut parent, a, b);
        proof {
            lemma_sym_grows(edges@, k as int);
            let ra = root(before, a as int);
            let rb = root(before, b as int);
            assert forall|e: int| 0 <= e < k + 1 implies #[trigger] root(parent@, edges@[e].0 as int) == root(
                parent@,
                edges@[e].1 as int,
            ) by {
                assert(edges@[e].0 < n && edges@[e].1 < n);
                assert(root(parent@, edges@[e].0 as int) == (if root(before, edges@[e].0 as int) == ra {
                    rb
                } else {
                    root(before, edges@[e].0 as int)
                }));
                assert(root(parent@, edges@[e].1 as int) == (if root(before, edges@[e].1 as int) == ra {
                    rb
                } else {
                    root(before, edges@[e].1 as int)
                }));
                if e < k {
                    assert(root(before, edges@[e].0 as int) == root(before, edges@[e].1 as int));
                }
            }
            assert forall|y: int| 0 <= y < n implies reaches(s1, y, #[trigger] root(parent@, y)) && reaches(
                s1,
                root(parent@, y),
                y,
            ) by {
                let ry = root(before, y);
                assert(reaches(s0, y, ry) && reaches(s0, ry, y));
                lemma_reaches_mono(s0, s1, y, ry);
                lemma_reaches_mono(s0, s1, ry, y);
                if ry == ra {
                    assert(reaches(s0, a as int, ra) && reaches(s0, ra, a as int));
                    assert(reaches(s0, b as int, rb) && reaches(s0, rb, b as int));
                    lemma_reaches_mono(s0, s1, a as int, ra);
                    lemma_reaches_mono(s0, s1, ra, a as int);
                    lemma_reaches_mono(s0, s1, b as int, rb);
                    lemma_reaches_mono(s0, s1, rb, b as int);
                    lemma_reaches_trans(s1, y, ra, a as int);
                    lemma_reaches_step(s1, y, a as int, b as int);
                    lemma_reaches_trans(s1, y, b as int, rb);
                    lemma_reaches_step(s1, rb, b as int, a as int);
                    lemma_reaches_trans(s1, rb, a as int, ra);
                    lemma_reaches_trans(s1, rb, ra, y);
                }
            }
        }
        k = k + 1;
    }
    assert(edges@.take(edges@.len() as int) =~= edges@);
    let ghost fin = parent@;
    let mut r: Vec<usize> = Vec::new();
    let mut v: usize = 0;
    while v < n
        invariant
            v <= n,
            parent@.len() == n,
            is_forest(parent@),
            is_forest(fin),
            fin.len() == n,
            forall|y: int, z: int| 0 <= y < n ==> (root_of(fin, y, z) <==> root_of(parent@, y, z)),
            r@.len() == v,
            forall|j: int| 0 <= j < v ==> r@[j] == root(fin, j),
        decreases n - v,
    {
        let ghost cur = parent@;
        let x = find(&mut parent, v);
        proof {
            lemma_forest_root(cur, v as int);
            lemma_forest_root(fin, v as int);
            assert(root_of(cur, v as int, root(fin, v as int)));
        }
        r.push(x);
        v = v + 1;
    }
    proof {
        let sym = symmetric(edges@);
        assert forall|i: int| 0 <= i < n implies r@[i] < n by {
            lemma_forest_root(fin, i);
        }
        assert forall|i: int, j: int| 0 <= i < n && 0 <= j < n implies (r@[i] == r@[j] <==> reaches(
            sym,
            i,
            j,
        )) by {
            if r@[i] == r@[j] {
                assert(reaches(sym, i, root(fin, i)));
                assert(reaches(sym, root(fin, j), j));
                lemma_reaches_trans(sym, i, root(fin, i), j);
            }
            if reaches(sym, i, j) {
                let c = Set::new(|u: int| 0 <= u < n && root(fin, u) == root(fin, i));
                assert forall|e: int| 0 <= e < sym.len() && c.contains(#[trigger] sym[e].0 as int) implies c.contains(
                    sym[e].1 as int,
                ) by {
                    if e < edges@.len() {
                        assert(sym[e] == edges@[e]);
                        assert(root(fin, edges@[e].0 as int) == root(fin, edges@[e].1 as int));
                        assert(edges@[e].1 < n);
                    } else {
                        let m = e - edges@.len();
                        assert(sym[e] == (edges@[m].1, edges@[m].0));
                        assert(root(fin, edges@[m].0 as int) == root(fin, edges@[m].1 as int));
                        assert(edges@[m].0 < n);
                    }
                }
                lemma_closed_set_holds_reachable(sym, c, i, j);
            }
        }
    }
    r
}

} // verus!
