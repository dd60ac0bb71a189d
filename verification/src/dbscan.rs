//! Density-based clustering over a distance matrix.

use crate::matrix::DistanceMatrix;
use vstd::prelude::*;

verus! {

/// File `j` lies in the epsilon-neighbourhood of file `i`.
pub open spec fn within(m: Seq<Seq<i32>>, eps: int, i: int, j: int) -> bool {
    m[i][j] <= eps
}

/// The members of the epsilon-neighbourhood of `i` among the first `upto`
/// files, in ascending order.
pub open spec fn neighborhood(m: Seq<Seq<i32>>, eps: int, i: int, upto: int) -> Seq<usize>
    decreases upto,
{
    if upto <= 0 {
        Seq::empty()
    } else if within(m, eps, i, upto - 1) {
        neighborhood(m, eps, i, upto - 1).push((upto - 1) as usize)
    } else {
        neighborhood(m, eps, i, upto - 1)
    }
}

/// A core point has at least `min_points` files in its neighbourhood, itself
/// included where its own distance is within the threshold.
pub open spec fn is_core(m: Seq<Seq<i32>>, eps: int, min_points: int, i: int) -> bool {
    neighborhood(m, eps, i, m.len() as int).len() >= min_points
}

/// A neighbourhood lists exactly the files within the threshold, each once and
/// in ascending order.
pub proof fn neighborhood_members(m: Seq<Seq<i32>>, eps: int, i: int, upto: int)
    requires
        0 <= upto <= usize::MAX,
    ensures
        neighborhood(m, eps, i, upto).len() <= upto,
        forall|t: int|
            0 <= t < neighborhood(m, eps, i, upto).len() ==> {
                &&& 0 <= (#[trigger] neighborhood(m, eps, i, upto)[t]) < upto
                &&& within(m, eps, i, neighborhood(m, eps, i, upto)[t] as int)
            },
        forall|t: int, u: int|
            0 <= t < u < neighborhood(m, eps, i, upto).len() ==> (#[trigger] neighborhood(
                m,
                eps,
                i,
                upto,
            )[t]) < (#[trigger] neighborhood(m, eps, i, upto)[u]),
        forall|j: int|
            0 <= j < upto && #[trigger] within(m, eps, i, j) ==> neighborhood(
                m,
                eps,
                i,
                upto,
            ).contains(j as usize),
    decreases upto,
{
    if upto > 0 {
        neighborhood_members(m, eps, i, upto - 1);
        let prev = neighborhood(m, eps, i, upto - 1);
        let cur = neighborhood(m, eps, i, upto);
        assert forall|j: int| 0 <= j < upto && #[trigger] within(m, eps, i, j) implies cur.contains(
            j as usize,
        ) by {
            if j < upto - 1 {
                let t = choose|t: int| 0 <= t < prev.len() && prev[t] == j as usize;
                assert(cur[t] == j as usize);
            } else {
                assert(cur[cur.len() - 1] == j as usize);
            }
        }
    }
}

/// A list of distinct file indices below `n` has at most `n` entries.
pub proof fn distinct_indices_bounded(s: Seq<usize>, n: int)
    requires
        0 <= n,
        s.no_duplicates(),
        forall|t: int| 0 <= t < s.len() ==> (#[trigger] s[t]) < n,
    ensures
        s.len() <= n,
{
    let as_int = s.map_values(|x: usize| x as int);
    assert(as_int.no_duplicates());
    as_int.unique_seq_to_set();
    vstd::set_lib::lemma_int_range(0, n);
    assert(as_int.to_set().subset_of(vstd::set_lib::set_int_range(0, n))) by {
        assert forall|x: int| as_int.to_set().contains(x) implies vstd::set_lib::set_int_range(
            0,
            n,
        ).contains(x) by {
            let t = choose|t: int| 0 <= t < as_int.len() && as_int[t] == x;
            assert(s[t] < n);
        }
    }
    vstd::set_lib::lemma_len_subset(as_int.to_set(), vstd::set_lib::set_int_range(0, n));
}

/// The epsilon-neighbourhood of file `i`.
pub fn neighbors_of(distances: &DistanceMatrix, epsilon: i32, i: usize) -> (found: Vec<usize>)
    requires
        distances.wf(),
        i < distances.spec_dim(),
    ensures
        found@ == neighborhood(distances@, epsilon as int, i as int, distances@.len() as int),
{
    let n = distances.dim();
    let mut found: Vec<usize> = Vec::new();
    let mut j: usize = 0;
    while j < n
        invariant
            distances.wf(),
            n == distances.spec_dim(),
            i < n,
            j <= n,
            found@ == neighborhood(distances@, epsilon as int, i as int, j as int),
        decreases n - j,
    {
        if distances.get(i, j) <= epsilon {
            found.push(j);
        }
        j = j + 1;
    }
    found
}

/// Whether `x` occurs in `list`.
pub fn contains_index(list: &Vec<usize>, x: usize) -> (b: bool)
    ensures
        b == list@.contains(x),
{
    let mut t: usize = 0;
    while t < list.len()
        invariant
            t <= list.len(),
            forall|u: int| 0 <= u < t ==> list@[u] != x,
        decreases list.len() - t,
    {
        if list[t] == x {
            return true;
        }
        t = t + 1;
    }
    false
}

/// File `p` joined its cluster through `parent[p]`: a core point of the same
/// cluster that has `p` in its neighbourhood and joined before it.
pub open spec fn joined_through(
    m: Seq<Seq<i32>>,
    eps: int,
    min_points: int,
    labels: Seq<Option<usize>>,
    parent: Seq<int>,
    rank: Seq<int>,
    p: int,
) -> bool {
    let q = parent[p];
    &&& 0 <= q < m.len()
    &&& is_core(m, eps, min_points, q)
    &&& labels[q] == labels[p]
    &&& within(m, eps, q, p)
    &&& rank[q] < rank[p]
}

/// `labels` is a density-based clustering of the files of `m`, witnessed by
/// the point that started each cluster (`seeds`, one per cluster id) and by
/// the way each other member was reached (`parent`, `rank`).
///
/// * Cluster ids are `0..seeds.len()`; cluster `c` was started by the core
///   point `seeds[c]`, the lowest-numbered core point in it, and clusters are
///   numbered in the order of their seeds.
/// * Everything in the neighbourhood of a core point is labelled, with the
///   core point's cluster or one found earlier.
/// * Every member other than the seed was reached from a core point of its
///   own cluster, so each cluster is connected through its core points.
pub open spec fn explains(
    m: Seq<Seq<i32>>,
    eps: int,
    min_points: int,
    labels: Seq<Option<usize>>,
    seeds: Seq<int>,
    parent: Seq<int>,
    rank: Seq<int>,
) -> bool {
    let n = m.len() as int;
    let k = seeds.len() as int;
    &&& labels.len() == n
    &&& parent.len() == n
    &&& rank.len() == n
    &&& forall|p: int| 0 <= p < n ==> 0 <= #[trigger] rank[p]
    &&& forall|p: int| 0 <= p < n && (#[trigger] labels[p]) is Some ==> labels[p]->0 < k
    &&& forall|c: int|
        0 <= c < k ==> {
            &&& 0 <= (#[trigger] seeds[c]) < n
            &&& is_core(m, eps, min_points, seeds[c])
            &&& labels[seeds[c]] == Some(c as usize)
        }
    &&& forall|c1: int, c2: int|
        0 <= c1 < c2 < k ==> (#[trigger] seeds[c1]) < (#[trigger] seeds[c2])
    &&& forall|q: int|
        0 <= q < n && is_core(m, eps, min_points, q) && (#[trigger] labels[q]) is Some
            ==> seeds[labels[q]->0 as int] <= q
    &&& forall|q: int, j: int|
        0 <= q < n && 0 <= j < n && is_core(m, eps, min_points, q) && labels[q] is Some
            && #[trigger] within(m, eps, q, j) ==> labels[j] is Some && labels[j]->0
            <= labels[q]->0
    &&& forall|p: int|
        0 <= p < n && labels[p] is Some && p != seeds[labels[p]->0 as int] ==> joined_through(
            m,
            eps,
            min_points,
            labels,
            parent,
            rank,
            p,
        ) && 0 <= #[trigger] parent[p]
}

/// `labels` is what density-based clustering assigns to the files of `m`:
/// every core point is labelled, and the labelling is explained by some
/// choice of seeds and join order.
pub open spec fn is_dbscan_result(
    m: Seq<Seq<i32>>,
    eps: int,
    min_points: int,
    labels: Seq<Option<usize>>,
) -> bool {
    &&& labels.len() == m.len()
    &&& forall|q: int|
        0 <= q < m.len() && is_core(m, eps, min_points, q) ==> (#[trigger] labels[q]) is Some
    &&& exists|seeds: Seq<int>, parent: Seq<int>, rank: Seq<int>|
        explains(m, eps, min_points, labels, seeds, parent, rank)
}

/// What holds when cluster `c` is about to be grown from the point `s`: the
/// labelling so far is explained by `seeds`, everything before `s` has been
/// visited, and `s` is an unlabelled core point that was just visited.
/// `before` holds the labels, the visited flags, and the join witnesses.
spec fn ready_to_expand(
    m: Seq<Seq<i32>>,
    eps: int,
    min_points: int,
    c: usize,
    s: int,
    before: (Seq<Option<usize>>, Seq<bool>, Seq<int>, Seq<int>),
    seeds: Seq<int>,
) -> bool {
    let n = m.len() as int;
    &&& 0 <= s < n
    &&& before.0.len() == n
    &&& before.1.len() == n
    &&& c == seeds.len()
    &&& is_core(m, eps, min_points, s)
    &&& explains(m, eps, min_points, before.0, seeds, before.2, before.3)
    &&& forall|p: int| 0 <= p < n && (#[trigger] before.0[p]) is Some ==> before.1[p]
    &&& before.1[s]
    &&& before.0[s] is None
    &&& forall|p: int| 0 <= p < s ==> #[trigger] before.1[p]
    &&& forall|c: int| 0 <= c < seeds.len() ==> (#[trigger] seeds[c]) < s
    &&& forall|p: int|
        0 <= p < n && p != s && #[trigger] before.1[p] && is_core(m, eps, min_points, p)
            ==> before.0[p] is Some
}

/// The state of one cluster's expansion: the worklist `seed_set`, of which the
/// first `t` entries are done, and for each entry the core point that put it
/// there (`src`). `pending` is the point whose neighbourhood may not be on
/// the worklist yet, or `-1`.
#[verifier::opaque]
spec fn expanding(
    m: Seq<Seq<i32>>,
    eps: int,
    min_points: int,
    c: usize,
    s: int,
    before: (Seq<Option<usize>>, Seq<bool>, Seq<int>, Seq<int>),
    labels: Seq<Option<usize>>,
    visited: Seq<bool>,
    seed_set: Seq<usize>,
    src: Seq<int>,
    parent: Seq<int>,
    rank: Seq<int>,
    t: int,
    pending: int,
) -> bool {
    let n = m.len() as int;
    &&& labels.len() == n
    &&& visited.len() == n
    &&& parent.len() == n
    &&& rank.len() == n
    &&& src.len() == seed_set.len()
    &&& 0 <= t <= seed_set.len()
    &&& forall|p: int| 0 <= p < n ==> 0 <= #[trigger] rank[p]
    &&& seed_set.no_duplicates()
    &&& forall|u: int| 0 <= u < seed_set.len() ==> (#[trigger] seed_set[u]) < n
    &&& 0 <= s < n
    &&& labels[s] == Some(c)
    &&& forall|p: int| 0 <= p < n && before.0[p] is Some ==> #[trigger] labels[p] == before.0[p]
    &&& forall|p: int| 0 <= p < n && before.0[p] is Some ==> #[trigger] parent[p] == before.2[p]
    &&& forall|p: int| 0 <= p < n && before.0[p] is Some ==> #[trigger] rank[p] == before.3[p]
    &&& forall|p: int|
        0 <= p < n && before.0[p] is None && (#[trigger] labels[p]) is Some ==> labels[p]
            == Some(c)
    &&& forall|p: int| 0 <= p < n && (#[trigger] labels[p]) is Some ==> visited[p]
    &&& forall|p: int| 0 <= p < n && before.1[p] ==> #[trigger] visited[p]
    &&& forall|u: int| 0 <= u < t ==> labels[#[trigger] seed_set[u] as int] is Some
    &&& forall|p: int|
        0 <= p < n && #[trigger] visited[p] && is_core(m, eps, min_points, p)
            ==> labels[p] is Some
    &&& forall|q: int, j: int|
        0 <= q < n && 0 <= j < n && q != pending && is_core(m, eps, min_points, q) && labels[q]
            == Some(c) && #[trigger] within(m, eps, q, j) ==> seed_set.contains(j as usize)
    &&& forall|u: int|
        0 <= u < seed_set.len() ==> {
            let q = #[trigger] src[u];
            &&& 0 <= q < n
            &&& is_core(m, eps, min_points, q)
            &&& labels[q] == Some(c)
            &&& within(m, eps, q, seed_set[u] as int)
        }
    &&& forall|p: int|
        0 <= p < n && labels[p] == Some(c) && p != s ==> joined_through(
            m,
            eps,
            min_points,
            labels,
            parent,
            rank,
            p,
        ) && 0 <= #[trigger] parent[p]
}

/// The sizes that an expansion in progress guarantees.
proof fn expanding_bounds(
    m: Seq<Seq<i32>>,
    eps: int,
    min_points: int,
    c: usize,
    s: int,
    before: (Seq<Option<usize>>, Seq<bool>, Seq<int>, Seq<int>),
    labels: Seq<Option<usize>>,
    visited: Seq<bool>,
    seed_set: Seq<usize>,
    src: Seq<int>,
    parent: Seq<int>,
    rank: Seq<int>,
    t: int,
    pending: int,
)
    requires
        expanding(
            m,
            eps,
            min_points,
            c,
            s,
            before,
            labels,
            visited,
            seed_set,
            src,
            parent,
            rank,
            t,
            pending,
        ),
    ensures
        labels.len() == m.len(),
        visited.len() == m.len(),
        src.len() == seed_set.len(),
        0 <= t <= seed_set.len() <= m.len(),
        forall|u: int| 0 <= u < seed_set.len() ==> (#[trigger] seed_set[u]) < m.len(),
{
    reveal(expanding);
    distinct_indices_bounded(seed_set, m.len() as int);
}

/// Labelling the seed and putting its neighbourhood on the worklist starts an
/// expansion.
proof fn expanding_init(
    m: Seq<Seq<i32>>,
    eps: int,
    min_points: int,
    c: usize,
    s: int,
    before: (Seq<Option<usize>>, Seq<bool>, Seq<int>, Seq<int>),
    seeds: Seq<int>,
    seed_set: Seq<usize>,
    src: Seq<int>,
)
    requires
        m.len() <= usize::MAX,
        ready_to_expand(m, eps, min_points, c, s, before, seeds),
        seed_set == neighborhood(m, eps, s, m.len() as int),
        src.len() == seed_set.len(),
        forall|u: int| 0 <= u < src.len() ==> #[trigger] src[u] == s,
    ensures
        expanding(
            m,
            eps,
            min_points,
            c,
            s,
            before,
            before.0.update(s, Some(c)),
            before.1,
            seed_set,
            src,
            before.2,
            before.3,
            0,
            -1,
        ),
{
    reveal(expanding);
    neighborhood_members(m, eps, s, m.len() as int);
    let labels = before.0.update(s, Some(c));
    assert forall|q: int, j: int|
        0 <= q < m.len() && 0 <= j < m.len() && q != -1 && is_core(m, eps, min_points, q)
            && labels[q] == Some(c) && #[trigger] within(m, eps, q, j) implies seed_set.contains(
        j as usize,
    ) by {
        if q != s {
            assert(before.0[q] is Some);
        }
    }
    assert forall|p: int| 0 <= p < m.len() && labels[p] == Some(c) && p != s implies joined_through(
        m,
        eps,
        min_points,
        labels,
        before.2,
        before.3,
        p,
    ) && 0 <= #[trigger] before.2[p] by {
        assert(before.0[p] is Some);
    }
}

/// Taking the next entry `q` off the worklist: it is labelled with the
/// cluster unless it has a label, and marked visited. Its neighbourhood is
/// pending where it had not been visited.
proof fn expanding_take(
    m: Seq<Seq<i32>>,
    eps: int,
    min_points: int,
    c: usize,
    s: int,
    before: (Seq<Option<usize>>, Seq<bool>, Seq<int>, Seq<int>),
    labels: Seq<Option<usize>>,
    visited: Seq<bool>,
    seed_set: Seq<usize>,
    src: Seq<int>,
    parent: Seq<int>,
    rank: Seq<int>,
    t: int,
)
    requires
        expanding(
            m,
            eps,
            min_points,
            c,
            s,
            before,
            labels,
            visited,
            seed_set,
            src,
            parent,
            rank,
            t,
            -1,
        ),
        t < seed_set.len(),
    ensures
        ({
            let q = seed_set[t] as int;
            let fresh = labels[q] is None;
            expanding(
                m,
                eps,
                min_points,
                c,
                s,
                before,
                if fresh {
                    labels.update(q, Some(c))
                } else {
                    labels
                },
                visited.update(q, true),
                seed_set,
                src,
                if fresh {
                    parent.update(q, src[t])
                } else {
                    parent
                },
                if fresh {
                    rank.update(q, rank[src[t]] + 1)
                } else {
                    rank
                },
                t + 1,
                if visited[q] {
                    -1
                } else {
                    q
                },
            )
        }),
{
    reveal(expanding);
    let n = m.len() as int;
    let q = seed_set[t] as int;
    let fresh = labels[q] is None;
    let labels2 = if fresh {
        labels.update(q, Some(c))
    } else {
        labels
    };
    let visited2 = visited.update(q, true);
    let parent2 = if fresh {
        parent.update(q, src[t])
    } else {
        parent
    };
    let rank2 = if fresh {
        rank.update(q, rank[src[t]] + 1)
    } else {
        rank
    };
    let pending = if visited[q] {
        -1
    } else {
        q
    };
    assert(labels[src[t]] == Some(c));
    assert forall|p: int| 0 <= p < n && labels2[p] == Some(c) && p != s implies joined_through(
        m,
        eps,
        min_points,
        labels2,
        parent2,
        rank2,
        p,
    ) && 0 <= #[trigger] parent2[p] by {
        if fresh && p == q {
            assert(src[t] != q);
        } else {
            assert(labels[p] == Some(c));
            assert(joined_through(m, eps, min_points, labels, parent, rank, p) && 0 <= parent[p]);
            assert(labels[parent[p]] is Some);
        }
    }
    assert forall|q2: int, j: int|
        0 <= q2 < n && 0 <= j < n && q2 != pending && is_core(m, eps, min_points, q2)
            && labels2[q2] == Some(c) && #[trigger] within(m, eps, q2, j)
        implies seed_set.contains(j as usize) by {
        if fresh && q2 == q {
            assert(visited[q]);
        }
    }
    assert forall|u: int| 0 <= u < t + 1 implies labels2[#[trigger] seed_set[u] as int] is Some by {
        if u < t {
            assert(labels[seed_set[u] as int] is Some);
        }
    }
    assert forall|u: int| 0 <= u < seed_set.len() implies {
        let q3 = #[trigger] src[u];
        &&& 0 <= q3 < n
        &&& is_core(m, eps, min_points, q3)
        &&& labels2[q3] == Some(c)
        &&& within(m, eps, q3, seed_set[u] as int)
    } by {
        assert(labels[src[u]] == Some(c));
    }
}

/// Appending a neighbour `x` of the pending core point `q` keeps the
/// expansion's state.
proof fn expanding_push(
    m: Seq<Seq<i32>>,
    eps: int,
    min_points: int,
    c: usize,
    s: int,
    before: (Seq<Option<usize>>, Seq<bool>, Seq<int>, Seq<int>),
    labels: Seq<Option<usize>>,
    visited: Seq<bool>,
    seed_set: Seq<usize>,
    src: Seq<int>,
    parent: Seq<int>,
    rank: Seq<int>,
    t: int,
    q: int,
    x: usize,
)
    requires
        expanding(
            m,
            eps,
            min_points,
            c,
            s,
            before,
            labels,
            visited,
            seed_set,
            src,
            parent,
            rank,
            t,
            q,
        ),
        0 <= q < m.len(),
        x < m.len(),
        is_core(m, eps, min_points, q),
        labels[q] == Some(c),
        within(m, eps, q, x as int),
        !seed_set.contains(x),
    ensures
        expanding(
            m,
            eps,
            min_points,
            c,
            s,
            before,
            labels,
            visited,
            seed_set.push(x),
            src.push(q),
            parent,
            rank,
            t,
            q,
        ),
{
    reveal(expanding);
    let grown = seed_set.push(x);
    assert forall|q2: int, j: int|
        0 <= q2 < m.len() && 0 <= j < m.len() && q2 != q && is_core(m, eps, min_points, q2)
            && labels[q2] == Some(c) && #[trigger] within(m, eps, q2, j) implies grown.contains(
        j as usize,
    ) by {
        let u = choose|u: int| 0 <= u < seed_set.len() && seed_set[u] == j as usize;
        assert(grown[u] == j as usize);
    }
    assert forall|u: int| 0 <= u < t implies labels[#[trigger] grown[u] as int] is Some by {
        assert(labels[seed_set[u] as int] is Some);
    }
    assert forall|u: int| 0 <= u < grown.len() implies (#[trigger] grown[u]) < m.len() by {
        if u < seed_set.len() {
            assert(seed_set[u] < m.len());
        }
    }
    assert forall|u: int| 0 <= u < grown.len() implies {
        let q3 = #[trigger] src.push(q)[u];
        &&& 0 <= q3 < m.len()
        &&& is_core(m, eps, min_points, q3)
        &&& labels[q3] == Some(c)
        &&& within(m, eps, q3, grown[u] as int)
    } by {
        if u < seed_set.len() {
            assert(labels[src[u]] == Some(c));
        }
    }
}

/// Once the neighbourhood of the pending point is on the worklist, or the
/// point is no core point, nothing is pending.
proof fn expanding_close(
    m: Seq<Seq<i32>>,
    eps: int,
    min_points: int,
    c: usize,
    s: int,
    before: (Seq<Option<usize>>, Seq<bool>, Seq<int>, Seq<int>),
    labels: Seq<Option<usize>>,
    visited: Seq<bool>,
    seed_set: Seq<usize>,
    src: Seq<int>,
    parent: Seq<int>,
    rank: Seq<int>,
    t: int,
    q: int,
)
    requires
        expanding(
            m,
            eps,
            min_points,
            c,
            s,
            before,
            labels,
            visited,
            seed_set,
            src,
            parent,
            rank,
            t,
            q,
        ),
        !is_core(m, eps, min_points, q) || forall|j: int|
            0 <= j < m.len() && #[trigger] within(m, eps, q, j) ==> seed_set.contains(j as usize),
    ensures
        expanding(
            m,
            eps,
            min_points,
            c,
            s,
            before,
            labels,
            visited,
            seed_set,
            src,
            parent,
            rank,
            t,
            -1,
        ),
{
    reveal(expanding);
}

/// When the worklist is exhausted the cluster is complete: the labelling is
/// explained by the earlier seeds followed by `s`.
proof fn expanding_finish(
    m: Seq<Seq<i32>>,
    eps: int,
    min_points: int,
    c: usize,
    s: int,
    before: (Seq<Option<usize>>, Seq<bool>, Seq<int>, Seq<int>),
    seeds: Seq<int>,
    labels: Seq<Option<usize>>,
    visited: Seq<bool>,
    seed_set: Seq<usize>,
    src: Seq<int>,
    parent: Seq<int>,
    rank: Seq<int>,
)
    requires
        m.len() <= usize::MAX,
        ready_to_expand(m, eps, min_points, c, s, before, seeds),
        expanding(
            m,
            eps,
            min_points,
            c,
            s,
            before,
            labels,
            visited,
            seed_set,
            src,
            parent,
            rank,
            seed_set.len() as int,
            -1,
        ),
    ensures
        explains(m, eps, min_points, labels, seeds.push(s), parent, rank),
        labels.len() == m.len(),
        visited.len() == m.len(),
        forall|p: int| 0 <= p < m.len() && (#[trigger] labels[p]) is Some ==> visited[p],
        forall|p: int| 0 <= p < m.len() && before.1[p] ==> #[trigger] visited[p],
        forall|p: int|
            0 <= p < m.len() && #[trigger] visited[p] && is_core(m, eps, min_points, p)
                ==> labels[p] is Some,
{
    reveal(expanding);
    let n = m.len() as int;
    let final_seeds = seeds.push(s);
    assert forall|p: int| 0 <= p < n && (#[trigger] labels[p]) is Some implies labels[p]->0
        < final_seeds.len() by {
        if before.0[p] is Some {
            assert(labels[p] == before.0[p]);
        }
    }
    assert forall|c2: int| 0 <= c2 < final_seeds.len() implies {
        &&& 0 <= (#[trigger] final_seeds[c2]) < n
        &&& is_core(m, eps, min_points, final_seeds[c2])
        &&& labels[final_seeds[c2]] == Some(c2 as usize)
    } by {
        if c2 < seeds.len() {
            assert(before.0[seeds[c2]] is Some);
        }
    }
    assert forall|c1: int, c2: int| 0 <= c1 < c2 < final_seeds.len() implies (
    #[trigger] final_seeds[c1]) < (#[trigger] final_seeds[c2]) by {
        if c2 < seeds.len() {
            assert(seeds[c1] < seeds[c2]);
        } else {
            assert(seeds[c1] < s);
        }
    }
    assert forall|q: int|
        0 <= q < n && is_core(m, eps, min_points, q) && (#[trigger] labels[q]) is Some
        implies final_seeds[labels[q]->0 as int] <= q by {
        if before.0[q] is None {
            if q < s {
                assert(before.1[q]);
            }
        } else {
            assert(labels[q] == before.0[q]);
        }
    }
    assert forall|q: int, j: int|
        0 <= q < n && 0 <= j < n && is_core(m, eps, min_points, q) && labels[q] is Some
            && #[trigger] within(m, eps, q, j) implies labels[j] is Some && labels[j]->0
        <= labels[q]->0 by {
        if before.0[q] is Some {
            assert(labels[q] == before.0[q]);
            assert(before.0[j] is Some);
            assert(labels[j] == before.0[j]);
        } else {
            assert(labels[q] == Some(c));
            assert(seed_set.contains(j as usize));
            let u = choose|u: int| 0 <= u < seed_set.len() && seed_set[u] == j as usize;
            assert(labels[seed_set[u] as int] is Some);
            if before.0[j] is Some {
                assert(labels[j] == before.0[j]);
            }
        }
    }
    assert forall|p: int|
        0 <= p < n && labels[p] is Some && p != final_seeds[labels[p]->0 as int]
        implies joined_through(m, eps, min_points, labels, parent, rank, p) && 0
        <= #[trigger] parent[p] by {
        if before.0[p] is Some {
            assert(labels[p] == before.0[p]);
            assert(joined_through(m, eps, min_points, before.0, before.2, before.3, p) && 0
                <= before.2[p]);
            let q = before.2[p];
            assert(before.0[q] is Some);
            assert(labels[q] == before.0[q]);
            assert(rank[q] == before.3[q]);
            assert(rank[p] == before.3[p]);
        } else {
            assert(labels[p] == Some(c));
        }
    }
}

/// Grows cluster `cluster_id` from the core point `point`: every file
/// reachable from it through neighbourhoods of core points that were not
/// visited before joins the cluster unless an earlier cluster holds it.
fn expand_cluster(
    point: usize,
    neighbors: &Vec<usize>,
    cluster_id: usize,
    distances: &DistanceMatrix,
    epsilon: i32,
    min_points: usize,
    labels: &mut Vec<Option<usize>>,
    visited: &mut Vec<bool>,
    Ghost(seeds): Ghost<Seq<int>>,
    Ghost(parent): Ghost<Seq<int>>,
    Ghost(rank): Ghost<Seq<int>>,
) -> (witness: Ghost<(Seq<int>, Seq<int>)>)
    requires
        distances.wf(),
        neighbors@ == neighborhood(
            distances@,
            epsilon as int,
            point as int,
            distances@.len() as int,
        ),
        ready_to_expand(
            distances@,
            epsilon as int,
            min_points as int,
            cluster_id,
            point as int,
            (old(labels)@, old(visited)@, parent, rank),
            seeds,
        ),
    ensures
        final(labels).len() == old(labels).len(),
        final(visited).len() == old(visited).len(),
        explains(
            distances@,
            epsilon as int,
            min_points as int,
            final(labels)@,
            seeds.push(point as int),
            witness@.0,
            witness@.1,
        ),
        forall|p: int|
            0 <= p < final(labels).len() && (#[trigger] final(labels)@[p]) is Some ==> final(visited)@[p],
        forall|p: int|
            0 <= p < old(visited).len() && old(visited)@[p] ==> #[trigger] final(visited)@[p],
        forall|p: int|
            0 <= p < final(visited).len() && #[trigger] final(visited)@[p] && is_core(
                distances@,
                epsilon as int,
                min_points as int,
                p,
            ) ==> final(labels)@[p] is Some,
{
    let n = distances.dim();
    let ghost m = distances@;
    let ghost eps = epsilon as int;
    let ghost mp = min_points as int;
    let ghost s = point as int;
    let ghost before = (labels@, visited@, parent, rank);
    let ghost mut par = parent;
    let ghost mut rk = rank;
    let ghost mut src: Seq<int> = Seq::empty();

    labels.set(point, Some(cluster_id));
    let mut seed_set: Vec<usize> = Vec::new();
    let mut a: usize = 0;
    while a < neighbors.len()
        invariant
            a <= neighbors.len(),
            seed_set@ == neighbors@.take(a as int),
            src.len() == a,
            forall|u: int| 0 <= u < a ==> #[trigger] src[u] == s,
        decreases neighbors.len() - a,
    {
        seed_set.push(neighbors[a]);
        proof {
            src = src.push(s);
            assert(neighbors@.take(a + 1) =~= neighbors@.take(a as int).push(neighbors@[a as int]));
        }
        a = a + 1;
    }
    proof {
        assert(seed_set@ =~= neighbors@);
        expanding_init(m, eps, mp, cluster_id, s, before, seeds, seed_set@, src);
    }
    let mut t: usize = 0;
    while t < seed_set.len()
        invariant
            distances.wf(),
            n == distances.spec_dim(),
            m == distances@,
            eps == epsilon as int,
            mp == min_points as int,
            t <= seed_set.len(),
            expanding(
                m,
                eps,
                mp,
                cluster_id,
                s,
                before,
                labels@,
                visited@,
                seed_set@,
                src,
                par,
                rk,
                t as int,
                -1,
            ),
        decreases n - t,
    {
        proof {
            expanding_bounds(
                m,
                eps,
                mp,
                cluster_id,
                s,
                before,
                labels@,
                visited@,
                seed_set@,
                src,
                par,
                rk,
                t as int,
                -1,
            );
            expanding_take(
                m,
                eps,
                mp,
                cluster_id,
                s,
                before,
                labels@,
                visited@,
                seed_set@,
                src,
                par,
                rk,
                t as int,
            );
        }
        let q = seed_set[t];
        let ghost from = src[t as int];
        let was_visited = visited[q];
        if labels[q].is_none() {
            labels.set(q, Some(cluster_id));
            proof {
                rk = rk.update(q as int, rk[from] + 1);
                par = par.update(q as int, from);
            }
        }
        visited.set(q, true);
        if !was_visited {
            let q_neighbors = neighbors_of(distances, epsilon, q);
            proof {
                neighborhood_members(m, eps, q as int, n as int);
            }
            if q_neighbors.len() >= min_points {
                proof {
                    reveal(expanding);
                }
                let mut w: usize = 0;
                while w < q_neighbors.len()
                    invariant
                        w <= q_neighbors.len(),
                        t < seed_set.len(),
                        q < m.len(),
                        is_core(m, eps, mp, q as int),
                        labels@[q as int] == Some(cluster_id),
                        forall|v: int|
                            0 <= v < q_neighbors@.len() ==> {
                                &&& (#[trigger] q_neighbors@[v]) < m.len()
                                &&& within(m, eps, q as int, q_neighbors@[v] as int)
                            },
                        expanding(
                            m,
                            eps,
                            mp,
                            cluster_id,
                            s,
                            before,
                            labels@,
                            visited@,
                            seed_set@,
                            src,
                            par,
                            rk,
                            t + 1,
                            q as int,
                        ),
                        forall|v: int|
                            0 <= v < w ==> seed_set@.contains(#[trigger] q_neighbors@[v]),
                    decreases q_neighbors.len() - w,
                {
                    let x = q_neighbors[w];
                    let ghost prev = seed_set@;
                    if !contains_index(&seed_set, x) {
                        proof {
                            expanding_push(
                                m,
                                eps,
                                mp,
                                cluster_id,
                                s,
                                before,
                                labels@,
                                visited@,
                                seed_set@,
                                src,
                                par,
                                rk,
                                t + 1,
                                q as int,
                                x,
                            );
                        }
                        seed_set.push(x);
                        proof {
                            src = src.push(q as int);
                        }
                    }
                    proof {
                        assert forall|v: int| 0 <= v < w + 1 implies seed_set@.contains(
                            #[trigger] q_neighbors@[v],
                        ) by {
                            if v < w {
                                let u = choose|u: int|
                                    0 <= u < prev.len() && prev[u] == q_neighbors@[v];
                                assert(seed_set@[u] == q_neighbors@[v]);
                            } else if !prev.contains(x) {
                                assert(seed_set@[prev.len() as int] == x);
                            }
                        }
                    }
                    w = w + 1;
                }
                proof {
                    assert forall|j: int| 0 <= j < m.len() && #[trigger] within(m, eps, q as int, j)
                    implies seed_set@.contains(j as usize) by {
                        let v = choose|v: int|
                            0 <= v < q_neighbors@.len() && q_neighbors@[v] == j as usize;
                        assert(seed_set@.contains(q_neighbors@[v]));
                    }
                }
            }
            proof {
                expanding_close(
                    m,
                    eps,
                    mp,
                    cluster_id,
                    s,
                    before,
                    labels@,
                    visited@,
                    seed_set@,
                    src,
                    par,
                    rk,
                    t + 1,
                    q as int,
                );
            }
        }
        t = t + 1;
    }
    proof {
        expanding_finish(
            m,
            eps,
            mp,
            cluster_id,
            s,
            before,
            seeds,
            labels@,
            visited@,
            seed_set@,
            src,
            par,
            rk,
        );
    }
    Ghost((par, rk))
}

/// Labels each file of `distances` with the cluster that density-based
/// clustering puts it in, or with `None` where it is noise. Files are taken
/// in ascending order, so cluster ids count up from 0 in the order in which
/// the clusters are found, and a file on the border of two clusters goes to
/// the one found first.
pub fn simple_dbscan(distances: &DistanceMatrix, epsilon: i32, min_points: usize) -> (labels: Vec<
    Option<usize>,
>)
    requires
        distances.wf(),
    ensures
        is_dbscan_result(distances@, epsilon as int, min_points as int, labels@),
{
    let n = distances.dim();
    let ghost m = distances@;
    let ghost eps = epsilon as int;
    let ghost mp = min_points as int;
    let mut labels: Vec<Option<usize>> = Vec::new();
    let mut visited: Vec<bool> = Vec::new();
    let mut a: usize = 0;
    while a < n
        invariant
            a <= n,
            labels.len() == a,
            visited.len() == a,
            forall|p: int| 0 <= p < a ==> (#[trigger] labels@[p]) is None,
            forall|p: int| 0 <= p < a ==> !(#[trigger] visited@[p]),
        decreases n - a,
    {
        labels.push(None);
        visited.push(false);
        a = a + 1;
    }
    let ghost mut seeds: Seq<int> = Seq::empty();
    let ghost mut parent: Seq<int> = Seq::new(n as nat, |p: int| 0int);
    let ghost mut rank: Seq<int> = Seq::new(n as nat, |p: int| 0int);
    let mut cluster_id: usize = 0;
    let mut i: usize = 0;
    while i < n
        invariant
            distances.wf(),
            n == distances.spec_dim(),
            m == distances@,
            eps == epsilon as int,
            mp == min_points as int,
            i <= n,
            cluster_id <= i,
            cluster_id == seeds.len(),
            labels.len() == n,
            visited.len() == n,
            explains(m, eps, mp, labels@, seeds, parent, rank),
            forall|p: int| 0 <= p < n && (#[trigger] labels@[p]) is Some ==> visited@[p],
            forall|p: int| 0 <= p < i ==> #[trigger] visited@[p],
            forall|c: int| 0 <= c < seeds.len() ==> (#[trigger] seeds[c]) < i,
            forall|p: int|
                0 <= p < n && #[trigger] visited@[p] && is_core(m, eps, mp, p)
                    ==> labels@[p] is Some,
        decreases n - i,
    {
        if !visited[i] {
            visited.set(i, true);
            let neighbors = neighbors_of(distances, epsilon, i);
            if neighbors.len() >= min_points {
                let witness = expand_cluster(
                    i,
                    &neighbors,
                    cluster_id,
                    distances,
                    epsilon,
                    min_points,
                    &mut labels,
                    &mut visited,
                    Ghost(seeds),
                    Ghost(parent),
                    Ghost(rank),
                );
                proof {
                    seeds = seeds.push(i as int);
                    parent = witness@.0;
                    rank = witness@.1;
                }
                cluster_id = cluster_id + 1;
            }
        }
        i = i + 1;
    }
    proof {
        assert forall|q: int| 0 <= q < m.len() && is_core(m, eps, mp, q) implies (
        #[trigger] labels@[q]) is Some by {
            assert(visited@[q]);
        }
        assert(explains(m, eps, mp, labels@, seeds, parent, rank));
    }
    labels
}

} // verus!
