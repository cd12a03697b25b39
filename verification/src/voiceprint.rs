//! Speaker identification bookkeeping: merging diarization clusters that
//! belong to one person (a union-find forest over cluster indices) and naming
//! the guests that no enrolled voice matched.
use vstd::prelude::*;

use crate::text::{
    chars_of, extend_str, parse_u32, parse_unsigned, push_decimal, decimal_text, slice_chars, starts_with,
    starts_with_str, string_of, sviews, trim, trim_str,
};

verus! {

// ---------------------------------------------------------------------------
// Union-find forest
// ---------------------------------------------------------------------------

/// Every parent is an index of the forest.
pub open spec fn parents_in_range(p: Seq<usize>) -> bool {
    forall|j: int| 0 <= j < p.len() ==> #[trigger] p[j] < p.len()
}

/// `rank` strictly grows from each node to its parent: the parent links have
/// no cycle other than the self-links of roots.
pub open spec fn rank_ok(p: Seq<usize>, rank: Seq<nat>) -> bool {
    &&& rank.len() == p.len()
    &&& parents_in_range(p)
    &&& forall|j: int| 0 <= j < p.len() && #[trigger] p[j] != j ==> rank[p[j] as int] > rank[j]
}

/// A parent array that is a forest: following parents from any node ends at
/// a root, a node that is its own parent.
pub open spec fn uf_valid(p: Seq<usize>) -> bool {
    exists|rank: Seq<nat>| rank_ok(p, rank)
}

/// The node reached from `j` after following at most `n` parent links,
/// stopping at a root.
pub open spec fn walk(p: Seq<usize>, j: int, n: nat) -> int
    decreases n,
{
    if n == 0 || !(0 <= j < p.len()) || p[j] == j {
        j
    } else {
        walk(p, p[j] as int, (n - 1) as nat)
    }
}

pub open spec fn is_root(p: Seq<usize>, r: int) -> bool {
    0 <= r < p.len() && p[r] == r
}

/// `r` is the root that following parents from `j` ends at.
pub open spec fn reaches(p: Seq<usize>, j: int, r: int) -> bool {
    is_root(p, r) && exists|n: nat| walk(p, j, n) == r
}

/// The root of the tree holding `j` (the representative of its set).
pub open spec fn root(p: Seq<usize>, j: int) -> int {
    choose|r: int| reaches(p, j, r)
}

/// The largest value of a sequence (0 when empty).
pub open spec fn max_of(s: Seq<nat>) -> nat
    decreases s.len(),
{
    if s.len() == 0 {
        0
    } else if max_of(s.drop_last()) >= s.last() {
        max_of(s.drop_last())
    } else {
        s.last()
    }
}

proof fn lemma_max_of(s: Seq<nat>, j: int)
    requires
        0 <= j < s.len(),
    ensures
        s[j] <= max_of(s),
    decreases s.len(),
{
    if j < s.len() - 1 {
        lemma_max_of(s.drop_last(), j);
    }
}

/// Once a walk stands on a root it stays there.
proof fn lemma_walk_stays(p: Seq<usize>, j: int, n: nat, m: nat)
    requires
        is_root(p, walk(p, j, n)),
    ensures
        walk(p, j, n + m) == walk(p, j, n),
    decreases n,
{
    if n > 0 && 0 <= j < p.len() && p[j] != j {
        lemma_walk_stays(p, p[j] as int, (n - 1) as nat, m);
    } else if m > 0 {
        assert(walk(p, j, n) == j);
    }
}

proof fn lemma_reaches_unique(p: Seq<usize>, j: int, r1: int, r2: int)
    requires
        reaches(p, j, r1),
        reaches(p, j, r2),
    ensures
        r1 == r2,
{
    let n1 = choose|n: nat| walk(p, j, n) == r1;
    let n2 = choose|n: nat| walk(p, j, n) == r2;
    if n1 <= n2 {
        lemma_walk_stays(p, j, n1, (n2 - n1) as nat);
    } else {
        lemma_walk_stays(p, j, n2, (n1 - n2) as nat);
    }
}

/// Following `max - rank[j]` links from `j` reaches a root.
proof fn lemma_walk_reaches_root(p: Seq<usize>, rank: Seq<nat>, j: int)
    requires
        rank_ok(p, rank),
        0 <= j < p.len(),
    ensures
        rank[j] <= max_of(rank),
        is_root(p, walk(p, j, (max_of(rank) - rank[j]) as nat)),
    decreases max_of(rank) - rank[j],
{
    lemma_max_of(rank, j);
    if p[j] != j {
        let k = p[j] as int;
        lemma_max_of(rank, k);
        lemma_walk_reaches_root(p, rank, k);
        let n = (max_of(rank) - rank[j]) as nat;
        let nk = (max_of(rank) - rank[k]) as nat;
        lemma_walk_stays(p, k, nk, (n - 1 - nk) as nat);
    }
}

/// In a forest every node has exactly one root, and any walk that stands on
/// a root stands on that one.
proof fn lemma_root(p: Seq<usize>, j: int)
    requires
        uf_valid(p),
        0 <= j < p.len(),
    ensures
        reaches(p, j, root(p, j)),
        is_root(p, root(p, j)),
        forall|n: nat| is_root(p, #[trigger] walk(p, j, n)) ==> walk(p, j, n) == root(p, j),
{
    let rank = choose|rank: Seq<nat>| rank_ok(p, rank);
    lemma_walk_reaches_root(p, rank, j);
    let n0 = (max_of(rank) - rank[j]) as nat;
    assert(reaches(p, j, walk(p, j, n0)));
    assert forall|n: nat| is_root(p, #[trigger] walk(p, j, n)) implies walk(p, j, n) == root(
        p,
        j,
    ) by {
        assert(reaches(p, j, walk(p, j, n)));
        lemma_reaches_unique(p, j, walk(p, j, n), root(p, j));
    }
}

/// A node that is not a root has the root of its parent.
proof fn lemma_root_step(p: Seq<usize>, j: int)
    requires
        uf_valid(p),
        0 <= j < p.len(),
        p[j] != j,
    ensures
        root(p, j) == root(p, p[j] as int),
{
    let k = p[j] as int;
    lemma_root(p, k);
    let n = choose|n: nat| walk(p, k, n) == root(p, k);
    assert(walk(p, j, n + 1) == walk(p, k, n));
    lemma_root(p, j);
}

/// Pointing `i` at its grandparent keeps the forest and every node's root.
proof fn lemma_halving(p: Seq<usize>, rank: Seq<nat>, i: int)
    requires
        rank_ok(p, rank),
        0 <= i < p.len(),
        p[i] != i,
    ensures
        rank_ok(p.update(i, p[p[i] as int]), rank),
        forall|j: int|
            0 <= j < p.len() ==> #[trigger] root(p.update(i, p[p[i] as int]), j) == root(p, j),
{
    let q = p.update(i, p[p[i] as int]);
    assert forall|j: int| 0 <= j < q.len() && #[trigger] q[j] != j implies rank[q[j] as int]
        > rank[j] by {
        if j == i {
            let k = p[i] as int;
            if p[k] != k {
                assert(rank[p[k] as int] > rank[k]);
            }
        } else {
            assert(q[j] == p[j]);
        }
    }
    assert(parents_in_range(q)) by {
        assert forall|j: int| 0 <= j < q.len() implies #[trigger] q[j] < q.len() by {
            if j != i {
                assert(q[j] == p[j]);
            }
        }
    }
    assert(rank_ok(q, rank));
    assert forall|j: int| 0 <= j < p.len() implies #[trigger] root(q, j) == root(p, j) by {
        lemma_halving_root(p, rank, i, j);
        lemma_root(q, j);
        lemma_reaches_unique(q, j, root(q, j), root(p, j));
    }
}

proof fn lemma_halving_root(p: Seq<usize>, rank: Seq<nat>, i: int, j: int)
    requires
        rank_ok(p, rank),
        rank_ok(p.update(i, p[p[i] as int]), rank),
        0 <= i < p.len(),
        p[i] != i,
        0 <= j < p.len(),
    ensures
        reaches(p.update(i, p[p[i] as int]), j, root(p, j)),
    decreases max_of(rank) - rank[j],
{
    let q = p.update(i, p[p[i] as int]);
    assert(uf_valid(p));
    assert(uf_valid(q));
    lemma_max_of(rank, j);
    if p[j] == j {
        assert(walk(p, j, 0) == j);
        lemma_root(p, j);
        assert(q[j] == j);
        assert(walk(q, j, 0) == j);
    } else if j != i {
        let k = p[j] as int;
        lemma_max_of(rank, k);
        lemma_halving_root(p, rank, i, k);
        let n = choose|n: nat| walk(q, k, n) == root(p, k);
        assert(q[j] == p[j]);
        assert(walk(q, j, n + 1) == walk(q, k, n));
        lemma_root_step(p, j);
    } else {
        let k = p[i] as int;
        let g = p[k] as int;
        lemma_max_of(rank, g);
        if p[k] != k {
            assert(rank[g] > rank[k]);
        }
        lemma_halving_root(p, rank, i, g);
        let n = choose|n: nat| walk(q, g, n) == root(p, g);
        assert(walk(q, i, n + 1) == walk(q, g, n));
        lemma_root_step(p, i);
        if p[k] != k {
            lemma_root_step(p, k);
        }
    }
}

/// Returns the representative of `i`'s set, halving the path on the way:
/// every node keeps its root.
pub fn uf_find(parent: &mut [usize], i: usize) -> (r: usize)
    requires
        uf_valid(old(parent)@),
        i < old(parent)@.len(),
    ensures
        final(parent)@.len() == old(parent)@.len(),
        uf_valid(final(parent)@),
        r == root(old(parent)@, i as int),
        is_root(final(parent)@, r as int),
        forall|j: int|
            0 <= j < old(parent)@.len() ==> #[trigger] root(final(parent)@, j) == root(
                old(parent)@,
                j,
            ),
{
    let ghost p0 = parent@;
    let ghost rank = choose|rank: Seq<nat>| rank_ok(parent@, rank);
    let ghost m = max_of(rank);
    let ghost i0 = i as int;
    let mut i = i;
    proof {
        lemma_max_of(rank, i as int);
    }
    while parent[i] != i
        invariant
            rank_ok(parent@, rank),
            m == max_of(rank),
            parent@.len() == p0.len(),
            i < parent@.len(),
            0 <= i0 < p0.len(),
            rank[i as int] <= m,
            root(parent@, i as int) == root(p0, i0),
            forall|j: int| 0 <= j < p0.len() ==> #[trigger] root(parent@, j) == root(p0, j),
        decreases m - rank[i as int],
    {
        let g = parent[parent[i]];
        let ghost pb = parent@;
        proof {
            lemma_halving(pb, rank, i as int);
        }
        parent[i] = g;
        proof {
            assert(parent@ == pb.update(i as int, pb[pb[i as int] as int]));
            let k = pb[i as int] as int;
            if pb[k] != k {
                assert(rank[g as int] > rank[k]);
            }
            assert(rank[g as int] > rank[i as int]);
            lemma_max_of(rank, g as int);
            assert(uf_valid(parent@));
            lemma_root_step(parent@, i as int);
        }
        i = g;
    }
    proof {
        assert(uf_valid(parent@));
        assert(walk(parent@, i as int, 0) == i);
        lemma_root(parent@, i as int);
    }
    i
}

/// The sets after joining the sets of `a` and `b`: the members of `b`'s set
/// take `a`'s root.
pub open spec fn joined_root(p: Seq<usize>, a: int, b: int, j: int) -> int {
    if root(p, j) == root(p, b) {
        root(p, a)
    } else {
        root(p, j)
    }
}

proof fn lemma_walk_avoids(p: Seq<usize>, rb: int, ra: int, j: int, n: nat)
    requires
        is_root(p, rb),
        0 <= ra < p.len(),
        walk(p, j, n) != rb,
    ensures
        walk(p.update(rb, ra as usize), j, n) == walk(p, j, n),
    decreases n,
{
    let q = p.update(rb, ra as usize);
    if n > 0 && 0 <= j < p.len() && p[j] != j {
        assert(j != rb);
        assert(q[j] == p[j]);
        lemma_walk_avoids(p, rb, ra, p[j] as int, (n - 1) as nat);
    } else if 0 <= j < p.len() {
        assert(j != rb);
        assert(q[j] == p[j]);
    }
}

proof fn lemma_walk_redirected(p: Seq<usize>, rb: int, ra: int, j: int, n: nat)
    requires
        is_root(p, rb),
        is_root(p, ra),
        parents_in_range(p),
        ra != rb,
        0 <= j < p.len(),
        walk(p, j, n) == rb,
    ensures
        walk(p.update(rb, ra as usize), j, n + 1) == ra,
    decreases n,
{
    let q = p.update(rb, ra as usize);
    assert(q[ra] == ra);
    if j == rb {
        assert(walk(q, ra, 0) == ra);
        lemma_walk_stays(q, ra, 0, n);
        assert(walk(q, rb, n + 1) == walk(q, ra, n));
    } else {
        assert(p[j] != j);
        assert(q[j] == p[j]);
        lemma_walk_redirected(p, rb, ra, p[j] as int, (n - 1) as nat);
    }
}

/// Joins the sets of `a` and `b`: the root of `b`'s set is pointed at the
/// root of `a`'s. Every other set is left as it was.
pub fn uf_union(parent: &mut [usize], a: usize, b: usize)
    requires
        uf_valid(old(parent)@),
        a < old(parent)@.len(),
        b < old(parent)@.len(),
    ensures
        final(parent)@.len() == old(parent)@.len(),
        uf_valid(final(parent)@),
        forall|j: int|
            0 <= j < old(parent)@.len() ==> #[trigger] root(final(parent)@, j) == joined_root(
                old(parent)@,
                a as int,
                b as int,
                j,
            ),
{
    let ghost p0 = parent@;
    let ra = uf_find(parent, a);
    let ghost pm = parent@;
    let rb = uf_find(parent, b);
    let ghost p1 = parent@;
    proof {
        assert(walk(pm, ra as int, 0) == ra);
        lemma_root(pm, ra as int);
        lemma_root(p1, ra as int);
    }
    if ra != rb {
        parent[rb] = ra;
        proof {
            let q = parent@;
            assert(q == p1.update(rb as int, ra));
            let rank = choose|rank: Seq<nat>| rank_ok(p1, rank);
            let top = if rank[ra as int] >= rank[rb as int] + 1 {
                rank[ra as int]
            } else {
                rank[rb as int] + 1
            };
            let rank2 = rank.update(ra as int, top);
            assert forall|j: int| 0 <= j < q.len() && #[trigger] q[j] != j implies rank2[q[j] as int]
                > rank2[j] by {
                if j != rb as int {
                    assert(q[j] == p1[j]);
                    assert(j != ra as int);
                }
            }
            assert(parents_in_range(q)) by {
                assert forall|j: int| 0 <= j < q.len() implies #[trigger] q[j] < q.len() by {
                    if j != rb as int {
                        assert(q[j] == p1[j]);
                    }
                }
            }
            assert(rank_ok(q, rank2));
            assert(uf_valid(q));
            assert forall|j: int| 0 <= j < p0.len() implies #[trigger] root(q, j) == joined_root(
                p0,
                a as int,
                b as int,
                j,
            ) by {
                lemma_root(p1, j);
                let n = choose|n: nat| walk(p1, j, n) == root(p1, j);
                lemma_root(q, j);
                if root(p1, j) == rb as int {
                    lemma_walk_redirected(p1, rb as int, ra as int, j, n);
                    assert(is_root(q, ra as int));
                } else {
                    lemma_walk_avoids(p1, rb as int, ra as int, j, n);
                    assert(is_root(q, root(p1, j))) by {
                        assert(q[root(p1, j)] == p1[root(p1, j)]);
                    }
                }
            }
        }
    } else {
        proof {
            assert forall|j: int| 0 <= j < p0.len() implies #[trigger] root(parent@, j)
                == joined_root(p0, a as int, b as int, j) by {}
        }
    }
}

/// Whether `b` and `a` end in one set after `uf_union(a, b)`, whatever sets
/// they were in: the union joins the two sets.
pub proof fn law_union_joins(p: Seq<usize>, a: int, b: int)
    ensures
        joined_root(p, a, b, a) == joined_root(p, a, b, b),
{
}

// ---------------------------------------------------------------------------
// Joining the clusters of one meeting that sound alike
// ---------------------------------------------------------------------------

/// The root of every node.
pub open spec fn roots(p: Seq<usize>) -> Seq<int> {
    Seq::new(p.len(), |j: int| root(p, j))
}

/// The roots after joining the sets of `a` and `b`: the nodes of `b`'s set
/// take `a`'s root.
pub open spec fn union_roots(rs: Seq<int>, a: int, b: int) -> Seq<int> {
    Seq::new(rs.len(), |j: int| if rs[j] == rs[b] { rs[a] } else { rs[j] })
}

/// The roots after the unions of row `a` of the similarity matrix, for the
/// columns before `b`: cluster `u[a]` is joined with each later `u[c]` that
/// is marked similar to it, in order.
pub open spec fn row_fold(rs: Seq<int>, u: Seq<usize>, sim: Seq<Seq<bool>>, a: int, b: int) -> Seq<
    int,
>
    decreases b - a,
{
    if b <= a + 1 {
        rs
    } else {
        let prev = row_fold(rs, u, sim, a, b - 1);
        if sim[a][b - 1] {
            union_roots(prev, u[a] as int, u[b - 1] as int)
        } else {
            prev
        }
    }
}

/// The roots after the unions of the rows before `a`.
pub open spec fn rows_fold(rs: Seq<int>, u: Seq<usize>, sim: Seq<Seq<bool>>, a: int) -> Seq<int>
    decreases a,
{
    if a <= 0 {
        rs
    } else {
        row_fold(rows_fold(rs, u, sim, a - 1), u, sim, a - 1, u.len() as int)
    }
}

pub open spec fn row_views(m: Seq<Vec<bool>>) -> Seq<Seq<bool>> {
    Seq::new(m.len(), |i: int| m[i]@)
}

/// Whether clusters `u[a]` and `u[b]`, when marked similar, share a root.
pub open spec fn similar_joined(rs: Seq<int>, u: Seq<usize>, sim: Seq<Seq<bool>>, a: int, b: int) -> bool {
    sim[a][b] ==> rs[u[a] as int] == rs[u[b] as int]
}

proof fn lemma_union_keeps_joined(rs: Seq<int>, a: int, b: int, x: int, y: int)
    requires
        0 <= a < rs.len(),
        0 <= b < rs.len(),
        0 <= x < rs.len(),
        0 <= y < rs.len(),
        rs[x] == rs[y],
    ensures
        union_roots(rs, a, b)[x] == union_roots(rs, a, b)[y],
{
}

/// Joins, for each pair of the given clusters that is marked similar (upper
/// triangle, row by row), the two clusters' sets, as `uf_union` does.
/// Afterwards every similar pair shares a root.
pub fn merge_similar(parent: &mut [usize], unmatched: &[usize], similar: &[Vec<bool>])
    requires
        uf_valid(old(parent)@),
        forall|k: int| 0 <= k < unmatched@.len() ==> #[trigger] unmatched@[k] < old(parent)@.len(),
        similar@.len() == unmatched@.len(),
        forall|k: int| 0 <= k < similar@.len() ==> (#[trigger] similar@[k])@.len() == unmatched@.len(),
    ensures
        final(parent)@.len() == old(parent)@.len(),
        uf_valid(final(parent)@),
        roots(final(parent)@) == rows_fold(
            roots(old(parent)@),
            unmatched@,
            row_views(similar@),
            unmatched@.len() as int,
        ),
        forall|a: int, b: int|
            0 <= a < b < unmatched@.len() ==> #[trigger] similar_joined(
                roots(final(parent)@),
                unmatched@,
                row_views(similar@),
                a,
                b,
            ),
{
    let ghost p0 = parent@;
    let ghost r0 = roots(p0);
    let ghost u = unmatched@;
    let ghost sv = row_views(similar@);
    let n = unmatched.len();
    let mut a: usize = 0;
    while a < n
        invariant
            n == u.len(),
            u == unmatched@,
            sv == row_views(similar@),
            similar@.len() == n,
            forall|k: int| 0 <= k < n ==> (#[trigger] similar@[k])@.len() == n,
            forall|k: int| 0 <= k < n ==> #[trigger] u[k] < p0.len(),
            a <= n,
            parent@.len() == p0.len(),
            uf_valid(parent@),
            roots(parent@) == rows_fold(r0, u, sv, a as int),
            forall|x: int, y: int|
                0 <= x < a && x < y < n ==> #[trigger] similar_joined(roots(parent@), u, sv, x, y),
        decreases n - a,
    {
        let mut b: usize = a + 1;
        while b < n
            invariant
                n == u.len(),
                u == unmatched@,
                sv == row_views(similar@),
                similar@.len() == n,
                forall|k: int| 0 <= k < n ==> (#[trigger] similar@[k])@.len() == n,
                forall|k: int| 0 <= k < n ==> #[trigger] u[k] < p0.len(),
                a < n,
                a + 1 <= b <= n,
                parent@.len() == p0.len(),
                uf_valid(parent@),
                roots(parent@) == row_fold(rows_fold(r0, u, sv, a as int), u, sv, a as int, b as int),
                forall|x: int, y: int|
                    0 <= x < a && x < y < n ==> #[trigger] similar_joined(roots(parent@), u, sv, x, y),
                forall|y: int| a < y < b ==> #[trigger] similar_joined(roots(parent@), u, sv, a as int, y),
            decreases n - b,
        {
            let ghost rs = roots(parent@);
            assert(sv[a as int] == similar@[a as int]@);
            if similar[a][b] {
                let ua = unmatched[a];
                let ub = unmatched[b];
                let ghost pb = parent@;
                uf_union(parent, ua, ub);
                proof {
                    assert(roots(parent@) =~= union_roots(rs, ua as int, ub as int)) by {
                        assert forall|j: int| 0 <= j < pb.len() implies roots(parent@)[j]
                            == union_roots(rs, ua as int, ub as int)[j] by {
                            assert(root(parent@, j) == joined_root(pb, ua as int, ub as int, j));
                        }
                    }
                    assert forall|x: int, y: int|
                        0 <= x < a && x < y < n implies #[trigger] similar_joined(
                        roots(parent@),
                        u,
                        sv,
                        x,
                        y,
                    ) by {
                        if sv[x][y] {
                            assert(similar_joined(rs, u, sv, x, y));
                            lemma_union_keeps_joined(rs, ua as int, ub as int, u[x] as int, u[y] as int);
                        }
                    }
                    assert forall|y: int| a < y < b + 1 implies #[trigger] similar_joined(
                        roots(parent@),
                        u,
                        sv,
                        a as int,
                        y,
                    ) by {
                        if y < b && sv[a as int][y] {
                            assert(similar_joined(rs, u, sv, a as int, y));
                            lemma_union_keeps_joined(rs, ua as int, ub as int, u[a as int] as int, u[y] as int);
                        }
                    }
                }
            } else {
                proof {
                    assert(!sv[a as int][b as int]);
                    assert(similar_joined(roots(parent@), u, sv, a as int, b as int));
                }
            }
            b += 1;
        }
        a += 1;
    }
}

/// A forest of `n` single-node sets.
pub fn singleton_forest(n: usize) -> (r: Vec<usize>)
    ensures
        r@.len() == n,
        uf_valid(r@),
        forall|j: int| 0 <= j < n ==> #[trigger] root(r@, j) == j,
{
    let mut r: Vec<usize> = Vec::new();
    let mut i: usize = 0;
    while i < n
        invariant
            i <= n,
            r@.len() == i,
            forall|j: int| 0 <= j < i ==> #[trigger] r@[j] == j,
        decreases n - i,
    {
        r.push(i);
        i += 1;
    }
    let ghost rank = Seq::new(n as nat, |j: int| 0nat);
    assert(rank_ok(r@, rank));
    proof {
        assert forall|j: int| 0 <= j < n implies #[trigger] root(r@, j) == j by {
            assert(walk(r@, j, 0) == j);
            lemma_root(r@, j);
        }
    }
    r
}

// ---------------------------------------------------------------------------
// Grouping clusters by set
// ---------------------------------------------------------------------------

/// The members of `ms` in the set whose root is `r`, in order.
pub open spec fn members_of(p: Seq<usize>, ms: Seq<usize>, r: int) -> Seq<usize> {
    ms.filter(|m: usize| root(p, m as int) == r)
}

/// Whether `r` is the root of one of `ms`.
pub open spec fn is_member_root(p: Seq<usize>, ms: Seq<usize>, r: int) -> bool {
    exists|k: int| 0 <= k < ms.len() && root(p, #[trigger] ms[k] as int) == r
}

/// Whether some group has root `rt`.
pub open spec fn has_group(groups: Seq<(usize, Vec<usize>)>, rt: int) -> bool {
    exists|x: int| 0 <= x < groups.len() && (#[trigger] groups[x]).0 as int == rt
}

/// Groups cluster indices by the set they are in: one group per set, in
/// increasing order of the set's root, each holding its members in the order
/// given.
pub fn group_by_root(parent: &mut [usize], members: &[usize]) -> (r: Vec<(usize, Vec<usize>)>)
    requires
        uf_valid(old(parent)@),
        forall|k: int| 0 <= k < members@.len() ==> #[trigger] members@[k] < old(parent)@.len(),
    ensures
        final(parent)@.len() == old(parent)@.len(),
        uf_valid(final(parent)@),
        forall|j: int|
            0 <= j < old(parent)@.len() ==> #[trigger] root(final(parent)@, j) == root(
                old(parent)@,
                j,
            ),
        forall|x: int, y: int| 0 <= x < y < r@.len() ==> r@[x].0 < r@[y].0,
        forall|x: int|
            0 <= x < r@.len() ==> is_member_root(old(parent)@, members@, (#[trigger] r@[x]).0 as int),
        forall|k: int|
            0 <= k < members@.len() ==> has_group(r@, root(old(parent)@, #[trigger] members@[k] as int)),
        forall|x: int|
            0 <= x < r@.len() ==> (#[trigger] r@[x]).1@ == members_of(
                old(parent)@,
                members@,
                r@[x].0 as int,
            ),
{
    let ghost p0 = parent@;
    // roots of the members, in member order
    let mut roots_of: Vec<usize> = Vec::new();
    let mut k: usize = 0;
    while k < members.len()
        invariant
            k <= members@.len(),
            parent@.len() == p0.len(),
            uf_valid(parent@),
            forall|j: int| 0 <= j < p0.len() ==> #[trigger] root(parent@, j) == root(p0, j),
            forall|t: int| 0 <= t < members@.len() ==> #[trigger] members@[t] < p0.len(),
            roots_of@.len() == k,
            forall|t: int|
                0 <= t < k ==> #[trigger] roots_of@[t] as int == root(p0, members@[t] as int),
        decreases members.len() - k,
    {
        let r = uf_find(parent, members[k]);
        roots_of.push(r);
        k += 1;
    }
    // sorted distinct roots
    let mut sorted: Vec<usize> = Vec::new();
    k = 0;
    while k < roots_of.len()
        invariant
            k <= roots_of@.len(),
            roots_of@.len() == members@.len(),
            forall|t: int|
                0 <= t < members@.len() ==> #[trigger] roots_of@[t] as int == root(
                    p0,
                    members@[t] as int,
                ),
            forall|x: int, y: int| 0 <= x < y < sorted@.len() ==> sorted@[x] < sorted@[y],
            forall|x: int| 0 <= x < sorted@.len() ==> is_member_root(p0, members@, #[trigger] sorted@[x] as int),
            forall|t: int| 0 <= t < k ==> #[trigger] sorted@.contains(roots_of@[t]),
        decreases roots_of.len() - k,
    {
        let v = roots_of[k];
        let mut pos: usize = 0;
        while pos < sorted.len() && sorted[pos] < v
            invariant
                pos <= sorted@.len(),
                forall|x: int| 0 <= x < pos ==> #[trigger] sorted@[x] < v,
            decreases sorted.len() - pos,
        {
            pos += 1;
        }
        assert(is_member_root(p0, members@, v as int)) by {
            assert(root(p0, members@[k as int] as int) == v);
        }
        if pos < sorted.len() && sorted[pos] == v {
            assert(sorted@.contains(v)) by { assert(sorted@[pos as int] == v); }
        } else {
            let ghost s0 = sorted@;
            sorted.insert(pos, v);
            assert(sorted@ == s0.insert(pos as int, v));
            assert forall|x: int, y: int| 0 <= x < y < sorted@.len() implies sorted@[x]
                < sorted@[y] by {
                if y < pos {
                } else if x < pos && y == pos {
                } else if x < pos {
                    assert(sorted@[y] == s0[y - 1]);
                    assert(s0[x] < s0[y - 1] || x == y - 1);
                    if pos < s0.len() {
                        assert(v < s0[pos as int]);
                    }
                } else if x == pos {
                    assert(sorted@[y] == s0[y - 1]);
                    assert(pos < s0.len());
                    assert(v < s0[pos as int]);
                    assert(s0[pos as int] <= s0[y - 1]);
                } else {
                    assert(sorted@[x] == s0[x - 1]);
                    assert(sorted@[y] == s0[y - 1]);
                }
            }
            assert forall|x: int| 0 <= x < sorted@.len() implies is_member_root(
                p0,
                members@,
                #[trigger] sorted@[x] as int,
            ) by {
                if x < pos {
                    assert(sorted@[x] == s0[x]);
                } else if x > pos {
                    assert(sorted@[x] == s0[x - 1]);
                }
            }
            assert forall|t: int| 0 <= t < k implies #[trigger] sorted@.contains(roots_of@[t]) by {
                assert(s0.contains(roots_of@[t]));
                let w = choose|w: int| 0 <= w < s0.len() && s0[w] == roots_of@[t];
                if w < pos {
                    assert(sorted@[w] == s0[w]);
                } else {
                    assert(sorted@[w + 1] == s0[w]);
                }
            }
            assert(sorted@[pos as int] == v);
        }
        k += 1;
    }
    // one group per root
    let mut out: Vec<(usize, Vec<usize>)> = Vec::new();
    let mut g: usize = 0;
    while g < sorted.len()
        invariant
            g <= sorted@.len(),
            roots_of@.len() == members@.len(),
            forall|t: int|
                0 <= t < members@.len() ==> #[trigger] roots_of@[t] as int == root(
                    p0,
                    members@[t] as int,
                ),
            out@.len() == g,
            forall|x: int| 0 <= x < g ==> (#[trigger] out@[x]).0 == sorted@[x],
            forall|x: int|
                0 <= x < g ==> (#[trigger] out@[x]).1@ == members_of(
                    p0,
                    members@,
                    sorted@[x] as int,
                ),
        decreases sorted.len() - g,
    {
        let rt = sorted[g];
        let mut grp: Vec<usize> = Vec::new();
        let mut t: usize = 0;
        while t < members.len()
            invariant
                t <= members@.len(),
                roots_of@.len() == members@.len(),
                forall|u: int|
                    0 <= u < members@.len() ==> #[trigger] roots_of@[u] as int == root(
                        p0,
                        members@[u] as int,
                    ),
                grp@ == members_of(p0, members@.take(t as int), rt as int),
            decreases members.len() - t,
        {
            proof {
                let f = |m: usize| root(p0, m as int) == rt as int;
                assert(members@.take(t + 1) =~= members@.take(t as int).push(members@[t as int]));
                members@.take(t as int).lemma_filter_push(members@[t as int], f);
            }
            if roots_of[t] == rt {
                grp.push(members[t]);
            }
            t += 1;
        }
        assert(members@.take(members@.len() as int) =~= members@);
        out.push((rt, grp));
        g += 1;
    }
    proof {
        assert forall|k: int| 0 <= k < members@.len() implies has_group(out@, root(p0, #[trigger] members@[k] as int)) by {
            assert(sorted@.contains(roots_of@[k]));
            let w = choose|w: int| 0 <= w < sorted@.len() && sorted@[w] == roots_of@[k];
            assert(out@[w].0 == sorted@[w]);
        }
    }
    out
}

// ---------------------------------------------------------------------------
// Speaker labels and guest names
// ---------------------------------------------------------------------------

/// The views of optional labels.
pub open spec fn opt_views(v: Seq<Option<String>>) -> Seq<Option<Seq<char>>> {
    Seq::new(
        v.len(),
        |i: int|
            match v[i] {
                Some(s) => Some(s@),
                None => None,
            },
    )
}

/// The distinct trimmed, non-blank speaker labels, in first-seen order.
pub open spec fn unique_labels(sp: Seq<Option<Seq<char>>>) -> Seq<Seq<char>>
    decreases sp.len(),
{
    if sp.len() == 0 {
        Seq::empty()
    } else {
        let prev = unique_labels(sp.drop_last());
        match sp.last() {
            Some(s) => if trim(s).len() > 0 && !prev.contains(trim(s)) {
                prev.push(trim(s))
            } else {
                prev
            },
            None => prev,
        }
    }
}

/// The distinct speaker labels of a transcript's segments, trimmed, blank ones
/// left out, in the order they first appear.
pub fn unique_speaker_labels(speakers: &[Option<String>]) -> (r: Vec<String>)
    ensures
        crate::text::sviews(r@) == unique_labels(opt_views(speakers@)),
{
    let ghost sv = opt_views(speakers@);
    let mut out: Vec<String> = Vec::new();
    let mut views: Vec<Vec<char>> = Vec::new();
    let mut i: usize = 0;
    while i < speakers.len()
        invariant
            i <= speakers@.len(),
            sv == opt_views(speakers@),
            crate::text::sviews(out@) == unique_labels(sv.take(i as int)),
            crate::text::vviews(views@) == unique_labels(sv.take(i as int)),
        decreases speakers.len() - i,
    {
        assert(sv.take(i + 1).drop_last() =~= sv.take(i as int));
        assert(sv.take(i + 1).last() == sv[i as int]);
        let ghost prev = unique_labels(sv.take(i as int));
        match &speakers[i] {
            Some(s) => {
                let t = trim_str(s.as_str());
                if t.len() > 0 {
                    let mut seen = false;
                    let mut k: usize = 0;
                    while k < views.len()
                        invariant
                            k <= views@.len(),
                            crate::text::vviews(views@) == prev,
                            seen == exists|w: int| 0 <= w < k && prev[w] == t@,
                        decreases views.len() - k,
                    {
                        let same = crate::text::eq_chars(&views[k], &t);
                        proof {
                            assert(prev[k as int] == views@[k as int]@);
                            if same {
                                assert(prev[k as int] == t@);
                            }
                            if !seen && !same {
                                assert forall|w: int| 0 <= w < k + 1 implies prev[w] != t@ by {
                                    if w < k {
                                        assert(!(0 <= w < k && prev[w] == t@));
                                    }
                                }
                            }
                        }
                        if same {
                            seen = true;
                        }
                        k += 1;
                    }
                    if !seen {
                        let ghost o0 = crate::text::sviews(out@);
                        let ghost v0 = crate::text::vviews(views@);
                        out.push(string_of(&t));
                        views.push(t);
                        assert(crate::text::sviews(out@) =~= o0.push(trim(s@)));
                        assert(crate::text::vviews(views@) =~= v0.push(trim(s@)));
                    } else {
                        assert(prev.contains(t@));
                    }
                }
            },
            None => {},
        }
        i += 1;
    }
    assert(sv.take(speakers@.len() as int) =~= sv);
    out
}

/// The display name of guest `n`.
pub open spec fn guest_name_text(n: nat) -> Seq<char> {
    "Guest-"@ + decimal_text(n)
}

pub fn guest_name(n: u32) -> (r: String)
    ensures
        r@ == guest_name_text(n as nat),
{
    let mut out: Vec<char> = Vec::new();
    extend_str(&mut out, "Guest-");
    push_decimal(&mut out, n as u64);
    string_of(&out)
}

/// The guest number a name carries: `Guest-N` with `N` a `u32`.
pub open spec fn guest_number(name: Seq<char>) -> Option<nat> {
    if starts_with(name, "Guest-"@) {
        parse_unsigned(name.skip(6), u32::MAX as nat)
    } else {
        None
    }
}

/// The largest guest number among names (0 when none carries one).
pub open spec fn max_guest_number(names: Seq<Seq<char>>) -> nat
    decreases names.len(),
{
    if names.len() == 0 {
        0
    } else {
        let m = max_guest_number(names.drop_last());
        match guest_number(names.last()) {
            Some(n) => if n > m {
                n
            } else {
                m
            },
            None => m,
        }
    }
}

proof fn lemma_max_guest_number_bound(names: Seq<Seq<char>>)
    ensures
        max_guest_number(names) <= u32::MAX,
    decreases names.len(),
{
    if names.len() > 0 {
        lemma_max_guest_number_bound(names.drop_last());
    }
}

/// The largest guest number among the names.
fn max_guest_number_exec(names: &[String]) -> (r: u32)
    ensures
        r == max_guest_number(crate::text::sviews(names@)),
{
    let ghost nv = crate::text::sviews(names@);
    let mut max_n: u32 = 0;
    let mut i: usize = 0;
    while i < names.len()
        invariant
            i <= names@.len(),
            nv == crate::text::sviews(names@),
            max_n == max_guest_number(nv.take(i as int)),
        decreases names.len() - i,
    {
        assert(nv.take(i + 1).drop_last() =~= nv.take(i as int));
        assert(nv.take(i + 1).last() == names@[i as int]@);
        let name = chars_of(names[i].as_str());
        if starts_with_str(&name, "Guest-") {
            proof {
                reveal_strlit("Guest-");
            }
            let rest = slice_chars(&name, 6, name.len());
            assert(rest@ =~= name@.skip(6));
            match parse_u32(&rest) {
                Some(n) => {
                    if n > max_n {
                        max_n = n;
                    }
                },
                None => {},
            }
        }
        i += 1;
    }
    assert(nv.take(names@.len() as int) =~= nv);
    max_n
}


/// The next free `Guest-N` number, one past the largest among the existing
/// names. Names whose number is `u32::MAX` have no successor.
pub fn next_guest_index(names: &[String]) -> (r: u32)
    requires
        max_guest_number(crate::text::sviews(names@)) < u32::MAX,
    ensures
        r == max_guest_number(crate::text::sviews(names@)) + 1,
{
    max_guest_number_exec(names) + 1
}

proof fn lemma_guest_number_at_most_max(names: Seq<Seq<char>>, k: int)
    requires
        0 <= k < names.len(),
        guest_number(names[k]) is Some,
    ensures
        guest_number(names[k])->0 <= max_guest_number(names),
    decreases names.len(),
{
    if k < names.len() - 1 {
        lemma_guest_number_at_most_max(names.drop_last(), k);
        assert(names.drop_last()[k] == names[k]);
    }
}

/// Guests named from `next_guest_index` on never reuse the number of a guest
/// that already exists: the `g`-th new guest's number is larger than every
/// existing guest number.
pub proof fn law_new_guest_numbers_unused(names: Seq<Seq<char>>, g: nat, k: int)
    requires
        0 <= k < names.len(),
        guest_number(names[k]) is Some,
    ensures
        guest_number(names[k])->0 < max_guest_number(names) + 1 + g,
{
    lemma_guest_number_at_most_max(names, k);
}

/// The next free guest number, or `None` when a name already carries the
/// largest `u32` and there is no next one.
pub fn try_next_guest_index(names: &[String]) -> (r: Option<u32>)
    ensures
        max_guest_number(crate::text::sviews(names@)) < u32::MAX ==> r == Some(
            (max_guest_number(crate::text::sviews(names@)) + 1) as u32,
        ),
        max_guest_number(crate::text::sviews(names@)) >= u32::MAX ==> r is None,
{
    let max_n = max_guest_number_exec(names);
    if max_n == u32::MAX {
        None
    } else {
        Some(max_n + 1)
    }
}

/// The name shown for a person: the name the voice bank holds for the id,
/// else the id itself.
pub open spec fn display_name_spec(persons: Seq<(Seq<char>, Seq<char>)>, person_id: Seq<char>) -> Seq<
    char,
>
    decreases persons.len(),
{
    if persons.len() == 0 {
        person_id
    } else if persons[0].0 == person_id {
        persons[0].1
    } else {
        display_name_spec(persons.drop_first(), person_id)
    }
}

pub open spec fn person_views(persons: Seq<(String, String)>) -> Seq<(Seq<char>, Seq<char>)> {
    Seq::new(persons.len(), |i: int| (persons[i].0@, persons[i].1@))
}

/// Looks a person's name up by id among `(id, name)` pairs.
pub fn display_name_of(persons: &[(String, String)], person_id: &str) -> (r: String)
    ensures
        r@ == display_name_spec(person_views(persons@), person_id@),
{
    let ghost pv = person_views(persons@);
    let key = chars_of(person_id);
    let mut i: usize = 0;
    assert(pv.skip(0) =~= pv);
    while i < persons.len()
        invariant
            i <= persons@.len(),
            pv == person_views(persons@),
            key@ == person_id@,
            display_name_spec(pv, person_id@) == display_name_spec(pv.skip(i as int), person_id@),
        decreases persons.len() - i,
    {
        assert(pv.skip(i as int).drop_first() =~= pv.skip(i + 1));
        assert(pv.skip(i as int)[0] == pv[i as int]);
        if crate::text::eq_chars(&chars_of(persons[i].0.as_str()), &key) {
            return string_of(&chars_of(persons[i].1.as_str()));
        }
        i += 1;
    }
    string_of(&key)
}

// ---------------------------------------------------------------------------
// Assigning people to the speaker labels of a meeting
// ---------------------------------------------------------------------------

/// Who a speaker label turned out to be. `C` is the type of a match
/// confidence, which is carried along unread.
#[derive(Debug)]
pub struct SpeakerAssignment<C> {
    pub person_id: Option<String>,
    pub confidence: Option<C>,
    pub display_name: String,
}

/// The assignments of all labels, and how many labels the voice bank matched,
/// how many guests were named, and how many labels were left without anyone.
#[derive(Debug)]
pub struct SpeakerAssignments<C> {
    pub labels: Vec<Option<SpeakerAssignment<C>>>,
    pub matched: u32,
    pub guests: u32,
    pub unassigned: u32,
}

/// The last group holding label `i`.
pub open spec fn last_group(groups: Seq<(usize, Vec<usize>)>, i: int) -> Option<int>
    decreases groups.len(),
{
    if groups.len() == 0 {
        None
    } else if groups.last().1@.contains(i as usize) {
        Some(groups.len() - 1)
    } else {
        last_group(groups.drop_last(), i)
    }
}

/// The assignment of label `i`: a label in a group of unmatched clusters
/// takes the group's guest (the `g`-th group is guest number `first + g`,
/// with the person enrolled for it, if any, and no confidence); otherwise a
/// label the voice bank matched takes that person; otherwise nobody.
pub open spec fn assignment_of<C>(
    hits: Seq<Option<(String, C, String)>>,
    groups: Seq<(usize, Vec<usize>)>,
    people: Seq<Option<String>>,
    first: nat,
    i: int,
) -> Option<(Option<Seq<char>>, Option<C>, Seq<char>)> {
    match last_group(groups, i) {
        Some(g) => Some((crate::orchestrator::ov(people[g]), None, guest_name_text(first + g as nat))),
        None => match hits[i] {
            Some((p, c, n)) => Some((Some(p@), Some(c), n@)),
            None => None,
        },
    }
}

pub open spec fn assignment_view<C>(a: Option<SpeakerAssignment<C>>) -> Option<
    (Option<Seq<char>>, Option<C>, Seq<char>),
> {
    match a {
        Some(x) => Some((crate::orchestrator::ov(x.person_id), x.confidence, x.display_name@)),
        None => None,
    }
}

/// How many of the first `k` labels the voice bank matched.
pub open spec fn count_hits<C>(hits: Seq<Option<(String, C, String)>>, k: int) -> nat
    decreases k,
{
    if k <= 0 {
        0
    } else {
        count_hits(hits, k - 1) + if hits[k - 1] is Some {
            1nat
        } else {
            0nat
        }
    }
}

/// How many of the first `k` labels end without anyone.
pub open spec fn count_unassigned<C>(
    hits: Seq<Option<(String, C, String)>>,
    groups: Seq<(usize, Vec<usize>)>,
    people: Seq<Option<String>>,
    first: nat,
    k: int,
) -> nat
    decreases k,
{
    if k <= 0 {
        0
    } else {
        count_unassigned(hits, groups, people, first, k - 1) + if assignment_of(
            hits,
            groups,
            people,
            first,
            k - 1,
        ) is None {
            1nat
        } else {
            0nat
        }
    }
}

proof fn lemma_count_hits_bound<C>(hits: Seq<Option<(String, C, String)>>, k: int)
    requires
        0 <= k,
    ensures
        count_hits(hits, k) <= k,
    decreases k,
{
    if k > 0 {
        lemma_count_hits_bound(hits, k - 1);
    }
}

proof fn lemma_count_unassigned_bound<C>(
    hits: Seq<Option<(String, C, String)>>,
    groups: Seq<(usize, Vec<usize>)>,
    people: Seq<Option<String>>,
    first: nat,
    k: int,
)
    requires
        0 <= k,
    ensures
        count_unassigned(hits, groups, people, first, k) <= k,
    decreases k,
{
    if k > 0 {
        lemma_count_unassigned_bound(hits, groups, people, first, k - 1);
    }
}

fn copy_opt_string(o: &Option<String>) -> (r: Option<String>)
    ensures
        crate::orchestrator::ov(r) == crate::orchestrator::ov(*o),
{
    match o {
        Some(s) => Some(string_of(&chars_of(s.as_str()))),
        None => None,
    }
}

/// What a voice-bank match gives a label: the person, the confidence and
/// the person's name.
pub open spec fn hit_view<C>(h: Option<(String, C, String)>) -> Option<
    (Option<Seq<char>>, Option<C>, Seq<char>),
> {
    match h {
        Some((p, c, n)) => Some((Some(p@), Some(c), n@)),
        None => None,
    }
}

/// No label is in two groups.
pub open spec fn groups_disjoint(groups: Seq<(usize, Vec<usize>)>) -> bool {
    forall|g1: int, g2: int, x: usize|
        0 <= g1 < g2 < groups.len() && (#[trigger] groups[g1].1@.contains(x)) ==> !(
        #[trigger] groups[g2].1@.contains(x))
}

/// The labels in groups are those the voice bank did not match.
pub open spec fn groups_unmatched<C>(
    hits: Seq<Option<(String, C, String)>>,
    groups: Seq<(usize, Vec<usize>)>,
) -> bool {
    forall|g: int, k: int|
        0 <= g < groups.len() && 0 <= k < groups[g].1@.len() ==> hits[(#[trigger] groups[g].1@[k]) as int]
            is None
}

/// How many of the first `k` indices satisfy `p`.
pub open spec fn count_of(p: spec_fn(int) -> bool, k: int) -> nat
    decreases k,
{
    if k <= 0 {
        0
    } else {
        count_of(p, k - 1) + if p(k - 1) {
            1nat
        } else {
            0nat
        }
    }
}

proof fn lemma_count_mono(p: spec_fn(int) -> bool, q: spec_fn(int) -> bool, n: int, j: int)
    requires
        forall|i: int| 0 <= i < n && #[trigger] p(i) ==> q(i),
    ensures
        count_of(q, n) >= count_of(p, n),
        0 <= j < n && q(j) && !p(j) ==> count_of(q, n) >= count_of(p, n) + 1,
    decreases n,
{
    if n > 0 {
        lemma_count_mono(p, q, n - 1, j);
    }
}

proof fn lemma_count_three(
    a: spec_fn(int) -> bool,
    b: spec_fn(int) -> bool,
    c: spec_fn(int) -> bool,
    n: int,
)
    requires
        0 <= n,
        forall|i: int|
            0 <= i < n ==> (#[trigger] a(i) as int) + (b(i) as int) + (c(i) as int) == 1,
    ensures
        count_of(a, n) + count_of(b, n) + count_of(c, n) == n,
    decreases n,
{
    if n > 0 {
        assert((a(n - 1) as int) + (b(n - 1) as int) + (c(n - 1) as int) == 1);
        lemma_count_three(a, b, c, n - 1);
    }
}

proof fn lemma_count_hits_is<C>(hits: Seq<Option<(String, C, String)>>, k: int)
    ensures
        count_hits(hits, k) == count_of(|i: int| hits[i] is Some, k),
    decreases k,
{
    if k > 0 {
        lemma_count_hits_is(hits, k - 1);
    }
}

proof fn lemma_count_unassigned_is<C>(
    hits: Seq<Option<(String, C, String)>>,
    groups: Seq<(usize, Vec<usize>)>,
    people: Seq<Option<String>>,
    first: nat,
    k: int,
)
    ensures
        count_unassigned(hits, groups, people, first, k) == count_of(
            |i: int| assignment_of(hits, groups, people, first, i) is None,
            k,
        ),
    decreases k,
{
    if k > 0 {
        lemma_count_unassigned_is(hits, groups, people, first, k - 1);
    }
}

/// A label in no group is in no last group.
proof fn lemma_last_group_none(groups: Seq<(usize, Vec<usize>)>, i: int)
    requires
        forall|g: int| 0 <= g < groups.len() ==> !(#[trigger] groups[g].1@.contains(i as usize)),
    ensures
        last_group(groups, i) is None,
    decreases groups.len(),
{
    if groups.len() > 0 {
        let d = groups.drop_last();
        assert(!groups[groups.len() - 1].1@.contains(i as usize));
        assert forall|g: int| 0 <= g < d.len() implies !(#[trigger] d[g].1@.contains(i as usize)) by {
            assert(d[g] == groups[g]);
        }
        lemma_last_group_none(d, i);
    }
}

/// With disjoint groups, a label's last group is the one group holding it.
proof fn lemma_last_group_is(groups: Seq<(usize, Vec<usize>)>, g: int, i: int)
    requires
        groups_disjoint(groups),
        0 <= g < groups.len(),
        groups[g].1@.contains(i as usize),
    ensures
        last_group(groups, i) == Some(g),
    decreases groups.len(),
{
    let n = groups.len() - 1;
    if g < n {
        assert(!groups[n].1@.contains(i as usize));
        let d = groups.drop_last();
        assert(d[g] == groups[g]);
        assert(groups_disjoint(d)) by {
            assert forall|g1: int, g2: int, x: usize|
                0 <= g1 < g2 < d.len() && (#[trigger] d[g1].1@.contains(x)) implies !(
                #[trigger] d[g2].1@.contains(x)) by {
                assert(d[g1] == groups[g1] && d[g2] == groups[g2]);
            }
        }
        lemma_last_group_is(d, g, i);
    }
}

/// At least one label per group is in a group.
proof fn lemma_grouped_count(groups: Seq<(usize, Vec<usize>)>, n: int, m: int)
    requires
        groups_disjoint(groups),
        0 <= m <= groups.len(),
        forall|g: int| 0 <= g < groups.len() ==> (#[trigger] groups[g]).1@.len() > 0,
        forall|g: int, k: int|
            0 <= g < groups.len() && 0 <= k < groups[g].1@.len() ==> (#[trigger] groups[g].1@[k]) < n,
    ensures
        count_of(|i: int| last_group(groups.take(m), i) is Some, n) >= m,
    decreases m,
{
    if m > 0 {
        lemma_grouped_count(groups, n, m - 1);
        let p = |i: int| last_group(groups.take(m - 1), i) is Some;
        let q = |i: int| last_group(groups.take(m), i) is Some;
        assert(groups.take(m).drop_last() =~= groups.take(m - 1));
        assert forall|i: int| 0 <= i < n && #[trigger] p(i) implies q(i) by {
        }
        let j = groups[m - 1].1@[0] as int;
        assert(groups[m - 1].1@.contains(j as usize));
        assert(groups.take(m).last() == groups[m - 1]);
        assert(q(j));
        assert forall|g: int| 0 <= g < groups.take(m - 1).len() implies !(
        #[trigger] groups.take(m - 1)[g].1@.contains(j as usize)) by {
            assert(groups.take(m - 1)[g] == groups[g]);
        }
        lemma_last_group_none(groups.take(m - 1), j);
        lemma_count_mono(p, q, n, j);
    }
}

/// Each label gets one identity: the labels the voice bank matched, the
/// labels in groups and the labels left without anyone add up to all
/// labels, and there is at least one grouped label per guest.
proof fn lemma_assignment_counts<C>(
    hits: Seq<Option<(String, C, String)>>,
    groups: Seq<(usize, Vec<usize>)>,
    people: Seq<Option<String>>,
    first: nat,
)
    requires
        hits.len() <= usize::MAX,
        groups_disjoint(groups),
        groups_unmatched(hits, groups),
        forall|g: int| 0 <= g < groups.len() ==> (#[trigger] groups[g]).1@.len() > 0,
        forall|g: int, k: int|
            0 <= g < groups.len() && 0 <= k < groups[g].1@.len() ==> (#[trigger] groups[g].1@[k])
                < hits.len(),
    ensures
        count_hits(hits, hits.len() as int) + groups.len() + count_unassigned(
            hits,
            groups,
            people,
            first,
            hits.len() as int,
        ) <= hits.len(),
{
    let n = hits.len() as int;
    let a = |i: int| hits[i] is Some;
    let b = |i: int| last_group(groups, i) is Some;
    let c = |i: int| assignment_of(hits, groups, people, first, i) is None;
    assert forall|i: int| 0 <= i < n implies (#[trigger] a(i) as int) + (b(i) as int) + (c(i) as int)
        == 1 by {
        lemma_last_group_member(groups, i);
        match last_group(groups, i) {
            Some(g) => {
                let k = choose|k: int| 0 <= k < groups[g].1@.len() && groups[g].1@[k] == i as usize;
                assert(groups[g].1@[k] as int == i);
                assert(hits[i] is None);
                assert(b(i) && !a(i) && !c(i));
            },
            None => {
                if hits[i] is Some {
                    assert(a(i) && !b(i) && !c(i));
                } else {
                    assert(!a(i) && !b(i) && c(i));
                }
            },
        }
    }
    lemma_count_three(a, b, c, n);
    lemma_count_hits_is(hits, n);
    lemma_count_unassigned_is(hits, groups, people, first, n);
    lemma_grouped_count(groups, n, groups.len() as int);
    assert(groups.take(groups.len() as int) =~= groups);
}

/// A label's last group holds it.
proof fn lemma_last_group_member(groups: Seq<(usize, Vec<usize>)>, i: int)
    ensures
        last_group(groups, i) matches Some(g) ==> 0 <= g < groups.len() && groups[g].1@.contains(
            i as usize,
        ),
    decreases groups.len(),
{
    if groups.len() > 0 && !groups.last().1@.contains(i as usize) {
        lemma_last_group_member(groups.drop_last(), i);
    }
}

/// Assigns people to the speaker labels of a meeting. Labels the voice bank
/// matched keep their match; each group of unmatched labels becomes one
/// guest, named in group order from guest number `first_guest` on, with the
/// person enrolled for it (`people`, one per group) when there is one.
pub fn assign_speakers<C>(
    hits: Vec<Option<(String, C, String)>>,
    groups: &[(usize, Vec<usize>)],
    people: &[Option<String>],
    first_guest: u32,
) -> (r: SpeakerAssignments<C>)
    requires
        people@.len() == groups@.len(),
        first_guest + groups@.len() <= u32::MAX,
        hits@.len() <= u32::MAX,
        forall|g: int| 0 <= g < groups@.len() ==> (#[trigger] groups@[g]).1@.len() > 0,
        forall|g: int, k: int|
            0 <= g < groups@.len() && 0 <= k < groups@[g].1@.len() ==> (#[trigger] groups@[g].1@[k])
                < hits@.len(),
        groups_disjoint(groups@),
        groups_unmatched(hits@, groups@),
    ensures
        r.labels@.len() == hits@.len(),
        forall|g: int, k: int|
            0 <= g < groups@.len() && 0 <= k < groups@[g].1@.len() ==> assignment_view(
                #[trigger] r.labels@[groups@[g].1@[k] as int],
            ) == Some(
                (
                    crate::orchestrator::ov(people@[g]),
                    None::<C>,
                    guest_name_text(first_guest as nat + g as nat),
                ),
            ),
        forall|i: int|
            0 <= i < hits@.len() && (#[trigger] hits@[i]) is Some ==> assignment_view(r.labels@[i])
                == hit_view(hits@[i]),
        r.matched + r.guests + r.unassigned <= hits@.len(),
        forall|i: int|
            0 <= i < hits@.len() ==> assignment_view(#[trigger] r.labels@[i]) == assignment_of(
                hits@,
                groups@,
                people@,
                first_guest as nat,
                i,
            ),
        r.matched == count_hits(hits@, hits@.len() as int),
        r.guests == groups@.len(),
        r.unassigned == count_unassigned(
            hits@,
            groups@,
            people@,
            first_guest as nat,
            hits@.len() as int,
        ),
{
    let ghost h0 = hits@;
    let n = hits.len();
    let mut hits = hits;
    let mut labels: Vec<Option<SpeakerAssignment<C>>> = Vec::new();
    let mut matched: u32 = 0;
    let mut k: usize = 0;
    while hits.len() > 0
        invariant
            n == h0.len(),
            n <= u32::MAX,
            k + hits@.len() == n,
            hits@ == h0.skip(k as int),
            labels@.len() == k,
            forall|i: int|
                0 <= i < k ==> assignment_view(#[trigger] labels@[i]) == assignment_of(
                    h0,
                    Seq::<(usize, Vec<usize>)>::empty(),
                    people@,
                    first_guest as nat,
                    i,
                ),
            matched == count_hits(h0, k as int),
        decreases hits.len(),
    {
        assert(hits@[0] == h0[k as int]);
        proof {
            lemma_count_hits_bound(h0, k + 1);
        }
        let h = hits.remove(0);
        assert(hits@ =~= h0.skip(k + 1));
        match h {
            Some((pid, c, name)) => {
                matched = matched + 1;
                labels.push(Some(SpeakerAssignment { person_id: Some(pid), confidence: Some(c), display_name: name }));
            },
            None => {
                labels.push(None);
            },
        }
        k += 1;
    }
    let mut g: usize = 0;
    while g < groups.len()
        invariant
            n == h0.len(),
            people@.len() == groups@.len(),
            first_guest + groups@.len() <= u32::MAX,
            forall|x: int, y: int|
                0 <= x < groups@.len() && 0 <= y < groups@[x].1@.len() ==> (#[trigger] groups@[x].1@[y])
                    < n,
            g <= groups@.len(),
            labels@.len() == n,
            forall|i: int|
                0 <= i < n ==> assignment_view(#[trigger] labels@[i]) == assignment_of(
                    h0,
                    groups@.take(g as int),
                    people@,
                    first_guest as nat,
                    i,
                ),
        decreases groups.len() - g,
    {
        let ghost before = labels@;
        let ghost gs = groups@.take(g as int);
        let ghost gs1 = groups@.take(g + 1);
        assert(gs1.drop_last() =~= gs);
        assert(gs1.last() == groups@[g as int]);
        let name = guest_name(first_guest + g as u32);
        let members = &groups[g].1;
        let mut j: usize = 0;
        while j < members.len()
            invariant
                n == h0.len(),
                labels@.len() == n,
                g < groups@.len(),
                people@.len() == groups@.len(),
                *members == groups@[g as int].1,
                forall|y: int| 0 <= y < members@.len() ==> #[trigger] members@[y] < n,
                name@ == guest_name_text(first_guest as nat + g as nat),
                j <= members@.len(),
                forall|i: int|
                    0 <= i < n ==> assignment_view(#[trigger] labels@[i]) == if members@.take(
                        j as int,
                    ).contains(i as usize) {
                        Some(
                            (
                                crate::orchestrator::ov(people@[g as int]),
                                None::<C>,
                                guest_name_text(first_guest as nat + g as nat),
                            ),
                        )
                    } else {
                        assignment_view(before[i])
                    },
            decreases members.len() - j,
        {
            let m = members[j];
            let entry = SpeakerAssignment {
                person_id: copy_opt_string(&people[g]),
                confidence: None,
                display_name: string_of(&chars_of(name.as_str())),
            };
            labels.set(m, Some(entry));
            proof {
                assert(members@.take(j + 1) =~= members@.take(j as int).push(m));
                assert forall|i: int| 0 <= i < n implies #[trigger] members@.take(j + 1).contains(
                    i as usize,
                ) == (members@.take(j as int).contains(i as usize) || i == m as int) by {
                    vstd::seq_lib::lemma_seq_contains_after_push(
                        members@.take(j as int),
                        m,
                        i as usize,
                    );
                }
            }
            j += 1;
        }
        proof {
            assert(members@.take(members@.len() as int) =~= members@);
            assert forall|i: int| 0 <= i < n implies assignment_view(#[trigger] labels@[i])
                == assignment_of(h0, gs1, people@, first_guest as nat, i) by {
                assert(last_group(gs1, i) == if groups@[g as int].1@.contains(i as usize) {
                    Some(g as int)
                } else {
                    last_group(gs, i)
                });
            }
        }
        g += 1;
    }
    assert(groups@.take(groups@.len() as int) =~= groups@);
    let mut unassigned: u32 = 0;
    let mut i: usize = 0;
    while i < labels.len()
        invariant
            n == h0.len(),
            n <= u32::MAX,
            labels@.len() == n,
            i <= n,
            forall|x: int|
                0 <= x < n ==> assignment_view(#[trigger] labels@[x]) == assignment_of(
                    h0,
                    groups@,
                    people@,
                    first_guest as nat,
                    x,
                ),
            unassigned == count_unassigned(h0, groups@, people@, first_guest as nat, i as int),
        decreases labels.len() - i,
    {
        proof {
            lemma_count_unassigned_bound(h0, groups@, people@, first_guest as nat, i + 1);
            assert(assignment_view(labels@[i as int]) == assignment_of(
                h0,
                groups@,
                people@,
                first_guest as nat,
                i as int,
            ));
        }
        if labels[i].is_none() {
            unassigned = unassigned + 1;
        }
        i += 1;
    }
    proof {
        lemma_assignment_counts(h0, groups@, people@, first_guest as nat);
        assert forall|g: int, k: int|
            0 <= g < groups@.len() && 0 <= k < groups@[g].1@.len() implies assignment_view(
            #[trigger] labels@[groups@[g].1@[k] as int],
        ) == Some(
            (
                crate::orchestrator::ov(people@[g]),
                None::<C>,
                guest_name_text(first_guest as nat + g as nat),
            ),
        ) by {
            let i = groups@[g].1@[k] as int;
            assert(groups@[g].1@.contains(i as usize));
            lemma_last_group_is(groups@, g, i);
        }
        assert forall|i: int| 0 <= i < n && (#[trigger] h0[i]) is Some implies assignment_view(
            labels@[i],
        ) == hit_view(h0[i]) by {
            lemma_last_group_member(groups@, i);
            if let Some(g) = last_group(groups@, i) {
                let k = choose|k: int| 0 <= k < groups@[g].1@.len() && groups@[g].1@[k] == i as usize;
                assert(h0[groups@[g].1@[k] as int] is None);
            }
        }
    }
    SpeakerAssignments { labels, matched, guests: groups.len() as u32, unassigned }
}


// ---------------------------------------------------------------------------
// Writing the people found onto the transcript
// ---------------------------------------------------------------------------

/// What a segment holds of its speaker's identity: the speaker name, the
/// person and the match confidence.
pub open spec fn identity_view<C>(x: (Option<String>, Option<String>, Option<C>)) -> (
    Option<Seq<char>>,
    Option<Seq<char>>,
    Option<C>,
) {
    (crate::orchestrator::ov(x.0), crate::orchestrator::ov(x.1), x.2)
}

/// The last of the first `k` labels that is the segment's speaker and was
/// assigned someone.
pub open spec fn last_assigned_label<C>(
    speaker: Option<Seq<char>>,
    labels: Seq<Seq<char>>,
    assignments: Seq<Option<SpeakerAssignment<C>>>,
    k: int,
) -> Option<int>
    decreases k,
{
    if k <= 0 {
        None
    } else if assignments[k - 1] is Some && speaker == Some(labels[k - 1]) {
        Some(k - 1)
    } else {
        last_assigned_label(speaker, labels, assignments, k - 1)
    }
}

/// The identity a segment ends with: for the assigned label it was spoken
/// under (the last one, should a label occur twice), that label's display
/// name as its speaker, with the person and confidence; else its speaker
/// and the person and confidence it had.
pub open spec fn written_identity<C>(
    speaker: Option<Seq<char>>,
    before: (Option<String>, Option<C>),
    labels: Seq<Seq<char>>,
    assignments: Seq<Option<SpeakerAssignment<C>>>,
) -> (Option<Seq<char>>, Option<Seq<char>>, Option<C>) {
    match last_assigned_label(speaker, labels, assignments, labels.len() as int) {
        Some(i) => match assignments[i] {
            Some(a) => (Some(a.display_name@), crate::orchestrator::ov(a.person_id), a.confidence),
            None => (speaker, crate::orchestrator::ov(before.0), before.1),
        },
        None => (speaker, crate::orchestrator::ov(before.0), before.1),
    }
}

/// Writes the people found onto the segments of a transcript: a segment
/// spoken under a label that was assigned someone takes the display name as
/// its speaker, and that person and confidence; every other segment keeps
/// what it had. `speakers` and `current` (person and confidence) are per
/// segment; `labels` and `assignments` per label. The result gives each
/// segment's speaker, person and confidence.
pub fn apply_speaker_assignments<C: Copy>(
    speakers: &[Option<String>],
    current: &[(Option<String>, Option<C>)],
    labels: &[String],
    assignments: &[Option<SpeakerAssignment<C>>],
) -> (r: Vec<(Option<String>, Option<String>, Option<C>)>)
    requires
        current@.len() == speakers@.len(),
        assignments@.len() == labels@.len(),
    ensures
        r@.len() == speakers@.len(),
        forall|j: int|
            0 <= j < r@.len() ==> identity_view(#[trigger] r@[j]) == written_identity(
                crate::orchestrator::ov(speakers@[j]),
                current@[j],
                sviews(labels@),
                assignments@,
            ),
{
    let mut out: Vec<(Option<String>, Option<String>, Option<C>)> = Vec::new();
    let mut j: usize = 0;
    while j < speakers.len()
        invariant
            j <= speakers@.len(),
            current@.len() == speakers@.len(),
            assignments@.len() == labels@.len(),
            out@.len() == j,
            forall|q: int|
                0 <= q < j ==> identity_view(#[trigger] out@[q]) == written_identity(
                    crate::orchestrator::ov(speakers@[q]),
                    current@[q],
                    sviews(labels@),
                    assignments@,
                ),
        decreases speakers.len() - j,
    {
        let ghost sp = crate::orchestrator::ov(speakers@[j as int]);
        let mut found: Option<usize> = None;
        let mut k: usize = labels.len();
        match &speakers[j] {
            Some(name) => {
                let name_chars = chars_of(name.as_str());
                while k > 0 && found.is_none()
                    invariant
                        k <= labels@.len(),
                        assignments@.len() == labels@.len(),
                        name_chars@ == name@,
                        sp == Some(name@),
                        found is None ==> last_assigned_label(
                            sp,
                            sviews(labels@),
                            assignments@,
                            labels@.len() as int,
                        ) == last_assigned_label(sp, sviews(labels@), assignments@, k as int),
                        found matches Some(i) ==> (i < labels@.len() && assignments@[i as int] is Some
                            && last_assigned_label(
                            sp,
                            sviews(labels@),
                            assignments@,
                            labels@.len() as int,
                        ) == Some(i as int)),
                    decreases k,
                {
                    if assignments[k - 1].is_some() && crate::text::eq_str(
                        &name_chars,
                        labels[k - 1].as_str(),
                    ) {
                        found = Some(k - 1);
                    }
                    k -= 1;
                }
            },
            None => {
                proof {
                    lemma_no_label_for_none(sviews(labels@), assignments@, labels@.len() as int);
                }
            },
        }
        let next: (Option<String>, Option<String>, Option<C>) = match found {
            Some(i) => match &assignments[i] {
                Some(a) => {
                    let pid: Option<String> = match &a.person_id {
                        Some(p) => Some(string_of(&chars_of(p.as_str()))),
                        None => None,
                    };
                    (Some(string_of(&chars_of(a.display_name.as_str()))), pid, a.confidence)
                },
                None => (None, None, None),
            },
            None => {
                let pid: Option<String> = match &current[j].0 {
                    Some(p) => Some(string_of(&chars_of(p.as_str()))),
                    None => None,
                };
                let sp: Option<String> = match &speakers[j] {
                    Some(t) => Some(string_of(&chars_of(t.as_str()))),
                    None => None,
                };
                (sp, pid, current[j].1)
            },
        };
        out.push(next);
        j += 1;
    }
    out
}

proof fn lemma_last_assigned_label_is<C>(
    speaker: Option<Seq<char>>,
    labels: Seq<Seq<char>>,
    assignments: Seq<Option<SpeakerAssignment<C>>>,
    i: int,
    k: int,
)
    requires
        0 <= i < k <= labels.len(),
        assignments[i] is Some,
        speaker == Some(labels[i]),
        forall|a: int, b: int| 0 <= a < b < labels.len() ==> labels[a] != labels[b],
    ensures
        last_assigned_label(speaker, labels, assignments, k) == Some(i),
    decreases k,
{
    if k - 1 != i {
        assert(labels[k - 1] != labels[i]);
        lemma_last_assigned_label_is(speaker, labels, assignments, i, k - 1);
    }
}

/// With distinct labels, a segment spoken under a label that was assigned
/// someone ends with exactly that assignment: its display name as speaker,
/// its person (none when it has none) and its confidence, whatever the
/// segment carried before.
pub proof fn law_assigned_segment_takes_assignment<C>(
    labels: Seq<Seq<char>>,
    assignments: Seq<Option<SpeakerAssignment<C>>>,
    i: int,
    before: (Option<String>, Option<C>),
)
    requires
        0 <= i < labels.len(),
        assignments.len() == labels.len(),
        assignments[i] is Some,
        forall|a: int, b: int| 0 <= a < b < labels.len() ==> labels[a] != labels[b],
    ensures
        ({
            let a = assignments[i].unwrap();
            written_identity(Some(labels[i]), before, labels, assignments) == (
                Some(a.display_name@),
                crate::orchestrator::ov(a.person_id),
                a.confidence,
            )
        }),
{
    lemma_last_assigned_label_is(Some(labels[i]), labels, assignments, i, labels.len() as int);
}

proof fn lemma_no_label_for_none<C>(
    labels: Seq<Seq<char>>,
    assignments: Seq<Option<SpeakerAssignment<C>>>,
    k: int,
)
    ensures
        last_assigned_label(None, labels, assignments, k) is None,
    decreases k,
{
    if k > 0 {
        lemma_no_label_for_none(labels, assignments, k - 1);
    }
}

} // verus!
