//! Clustering has one result: on a symmetric matrix the labelling is
//! determined, and with it what the clustering functions return.

use crate::batch::{is_batched, is_part, joined};
use crate::cluster::{aggregate_of, pick, ClusterView};
use crate::clustering::{hashable, is_clustering};
use crate::dbscan::{explains, is_core, is_dbscan_result, joined_through, within};
use crate::distance::{distance_matrix_properties, is_distance_matrix};
use crate::laws::symmetric;
use crate::lsh::lsh_buckets;
use crate::merge::merged;
use crate::model::FileRecord;
use vstd::prelude::*;

verus! {

/// `labels` labels every core point of `m` and is explained by the seeds
/// `seeds` and the join order `parent`, `rank`.
pub open spec fn explained(
    m: Seq<Seq<i32>>,
    eps: int,
    mp: int,
    labels: Seq<Option<usize>>,
    seeds: Seq<int>,
    parent: Seq<int>,
    rank: Seq<int>,
) -> bool {
    &&& explains(m, eps, mp, labels, seeds, parent, rank)
    &&& forall|q: int| 0 <= q < m.len() && is_core(m, eps, mp, q) ==> (#[trigger] labels[q]) is Some
}

/// Cluster ids are numbers that a `usize` holds: the seed of cluster `c` is
/// not before position `c`.
proof fn seed_not_before(
    m: Seq<Seq<i32>>,
    eps: int,
    mp: int,
    labels: Seq<Option<usize>>,
    seeds: Seq<int>,
    parent: Seq<int>,
    rank: Seq<int>,
    c: int,
)
    requires
        m.len() <= usize::MAX,
        explains(m, eps, mp, labels, seeds, parent, rank),
        0 <= c < seeds.len(),
    ensures
        c <= seeds[c] < m.len(),
        c as usize == c,
    decreases c,
{
    if c > 0 {
        seed_not_before(m, eps, mp, labels, seeds, parent, rank, c - 1);
        assert(seeds[c - 1] < seeds[c]);
    }
}

/// Two core points within the threshold of each other are in one cluster.
proof fn near_cores_share_cluster(
    m: Seq<Seq<i32>>,
    eps: int,
    mp: int,
    labels: Seq<Option<usize>>,
    seeds: Seq<int>,
    parent: Seq<int>,
    rank: Seq<int>,
    u: int,
    v: int,
)
    requires
        symmetric(m),
        explained(m, eps, mp, labels, seeds, parent, rank),
        0 <= u < m.len(),
        0 <= v < m.len(),
        is_core(m, eps, mp, u),
        is_core(m, eps, mp, v),
        within(m, eps, u, v),
    ensures
        labels[u] is Some,
        labels[u] == labels[v],
{
    assert(labels[u] is Some);
    assert(labels[v] is Some);
    assert(m[v][u] == m[u][v]);
    assert(within(m, eps, v, u));
    assert(labels[v]->0 <= labels[u]->0);
    assert(labels[u]->0 <= labels[v]->0);
}

/// A core point has, in any other result, the label that the seed of its
/// cluster has there.
proof fn core_follows_seed(
    m: Seq<Seq<i32>>,
    eps: int,
    mp: int,
    a: Seq<Option<usize>>,
    sa: Seq<int>,
    pa: Seq<int>,
    ra: Seq<int>,
    b: Seq<Option<usize>>,
    sb: Seq<int>,
    pb: Seq<int>,
    rb: Seq<int>,
    u: int,
)
    requires
        m.len() <= usize::MAX,
        symmetric(m),
        explained(m, eps, mp, a, sa, pa, ra),
        explained(m, eps, mp, b, sb, pb, rb),
        0 <= u < m.len(),
        is_core(m, eps, mp, u),
    ensures
        a[u] is Some,
        b[u] is Some,
        b[u] == b[sa[a[u]->0 as int]],
    decreases ra[u],
{
    assert(a[u] is Some);
    assert(b[u] is Some);
    let c = a[u]->0 as int;
    if u != sa[c] {
        assert(joined_through(m, eps, mp, a, pa, ra, u) && 0 <= pa[u]);
        let q = pa[u];
        assert(0 <= ra[q]);
        core_follows_seed(m, eps, mp, a, sa, pa, ra, b, sb, pb, rb, q);
        near_cores_share_cluster(m, eps, mp, b, sb, pb, rb, q, u);
    }
}

/// The label that the seed of cluster `c` of the first result has in the
/// second.
pub open spec fn seed_label(sa: Seq<int>, b: Seq<Option<usize>>, c: int) -> int {
    b[sa[c]]->0 as int
}

/// The seed of a cluster is, in any other result, the seed of the cluster
/// that it is in there.
proof fn seed_is_seed(
    m: Seq<Seq<i32>>,
    eps: int,
    mp: int,
    a: Seq<Option<usize>>,
    sa: Seq<int>,
    pa: Seq<int>,
    ra: Seq<int>,
    b: Seq<Option<usize>>,
    sb: Seq<int>,
    pb: Seq<int>,
    rb: Seq<int>,
    c: int,
)
    requires
        m.len() <= usize::MAX,
        symmetric(m),
        explained(m, eps, mp, a, sa, pa, ra),
        explained(m, eps, mp, b, sb, pb, rb),
        0 <= c < sa.len(),
    ensures
        0 <= seed_label(sa, b, c) < sb.len(),
        sb[seed_label(sa, b, c)] == sa[c],
{
    let s = sa[c];
    seed_not_before(m, eps, mp, a, sa, pa, ra, c);
    assert(is_core(m, eps, mp, s) && a[s] == Some(c as usize));
    assert(b[s] is Some);
    let l = seed_label(sa, b, c);
    assert(sb[l] <= s);
    let t = sb[l];
    seed_not_before(m, eps, mp, b, sb, pb, rb, l);
    assert(is_core(m, eps, mp, t) && b[t] == Some(l as usize));
    core_follows_seed(m, eps, mp, b, sb, pb, rb, a, sa, pa, ra, s);
    assert(a[s] == a[sb[b[s]->0 as int]]);
    assert(a[t] == Some(c as usize));
    assert(sa[a[t]->0 as int] <= t);
}

/// Later clusters have later seeds in any other result too.
proof fn seed_labels_increase(
    m: Seq<Seq<i32>>,
    eps: int,
    mp: int,
    a: Seq<Option<usize>>,
    sa: Seq<int>,
    pa: Seq<int>,
    ra: Seq<int>,
    b: Seq<Option<usize>>,
    sb: Seq<int>,
    pb: Seq<int>,
    rb: Seq<int>,
    c: int,
)
    requires
        m.len() <= usize::MAX,
        symmetric(m),
        explained(m, eps, mp, a, sa, pa, ra),
        explained(m, eps, mp, b, sb, pb, rb),
        0 <= c < sa.len(),
    ensures
        c <= seed_label(sa, b, c) < sb.len(),
    decreases c,
{
    seed_is_seed(m, eps, mp, a, sa, pa, ra, b, sb, pb, rb, c);
    if c > 0 {
        seed_labels_increase(m, eps, mp, a, sa, pa, ra, b, sb, pb, rb, c - 1);
        seed_is_seed(m, eps, mp, a, sa, pa, ra, b, sb, pb, rb, c - 1);
        let l0 = seed_label(sa, b, c - 1);
        let la = seed_label(sa, b, c);
        assert(sa[c - 1] < sa[c]);
        if la <= l0 {
            if la < l0 {
                assert(sb[la] < sb[l0]);
            }
        }
    }
}

/// The seed of cluster `c` is in cluster `c` in any other result.
proof fn seeds_agree(
    m: Seq<Seq<i32>>,
    eps: int,
    mp: int,
    a: Seq<Option<usize>>,
    sa: Seq<int>,
    pa: Seq<int>,
    ra: Seq<int>,
    b: Seq<Option<usize>>,
    sb: Seq<int>,
    pb: Seq<int>,
    rb: Seq<int>,
    c: int,
)
    requires
        m.len() <= usize::MAX,
        symmetric(m),
        explained(m, eps, mp, a, sa, pa, ra),
        explained(m, eps, mp, b, sb, pb, rb),
        0 <= c < sa.len(),
    ensures
        seed_label(sa, b, c) == c,
        b[sa[c]] == Some(c as usize),
{
    seed_labels_increase(m, eps, mp, a, sa, pa, ra, b, sb, pb, rb, c);
    seed_is_seed(m, eps, mp, a, sa, pa, ra, b, sb, pb, rb, c);
    let l = seed_label(sa, b, c);
    seed_labels_increase(m, eps, mp, b, sb, pb, rb, a, sa, pa, ra, l);
    seed_is_seed(m, eps, mp, b, sb, pb, rb, a, sa, pa, ra, l);
    let back = seed_label(sb, a, l);
    assert(sa[back] == sb[l]);
    assert(sb[l] == sa[c]);
    if back < c {
        assert(sa[back] < sa[c]);
    } else if c < back {
        assert(sa[c] < sa[back]);
    }
    assert(back == c);
    assert(b[sa[c]] is Some);
}

/// Whatever is labelled in one result has no higher label in the other.
proof fn label_not_higher(
    m: Seq<Seq<i32>>,
    eps: int,
    mp: int,
    a: Seq<Option<usize>>,
    sa: Seq<int>,
    pa: Seq<int>,
    ra: Seq<int>,
    b: Seq<Option<usize>>,
    sb: Seq<int>,
    pb: Seq<int>,
    rb: Seq<int>,
    x: int,
)
    requires
        m.len() <= usize::MAX,
        symmetric(m),
        explained(m, eps, mp, a, sa, pa, ra),
        explained(m, eps, mp, b, sb, pb, rb),
        0 <= x < m.len(),
        a[x] is Some,
    ensures
        b[x] is Some,
        b[x]->0 <= a[x]->0,
{
    let c = a[x]->0 as int;
    if is_core(m, eps, mp, x) {
        core_follows_seed(m, eps, mp, a, sa, pa, ra, b, sb, pb, rb, x);
        seeds_agree(m, eps, mp, a, sa, pa, ra, b, sb, pb, rb, c);
    } else {
        assert(x != sa[c]);
        assert(joined_through(m, eps, mp, a, pa, ra, x) && 0 <= pa[x]);
        let q = pa[x];
        core_follows_seed(m, eps, mp, a, sa, pa, ra, b, sb, pb, rb, q);
        seeds_agree(m, eps, mp, a, sa, pa, ra, b, sb, pb, rb, c);
        assert(b[q] == Some(c as usize));
        assert(within(m, eps, q, x));
        assert(b[x] is Some && b[x]->0 <= b[q]->0);
    }
}

/// On a symmetric matrix, any two labellings that density-based clustering
/// accepts are the same: the clusters, their numbering and the cluster of
/// every border point are determined.
pub proof fn dbscan_result_is_unique(
    m: Seq<Seq<i32>>,
    eps: int,
    min_points: int,
    first: Seq<Option<usize>>,
    second: Seq<Option<usize>>,
)
    requires
        m.len() <= usize::MAX,
        symmetric(m),
        is_dbscan_result(m, eps, min_points, first),
        is_dbscan_result(m, eps, min_points, second),
    ensures
        first == second,
{
    let (sa, pa, ra) = choose|seeds: Seq<int>, parent: Seq<int>, rank: Seq<int>|
        explains(m, eps, min_points, first, seeds, parent, rank);
    let (sb, pb, rb) = choose|seeds: Seq<int>, parent: Seq<int>, rank: Seq<int>|
        explains(m, eps, min_points, second, seeds, parent, rank);
    assert forall|x: int| 0 <= x < m.len() implies first[x] == second[x] by {
        if first[x] is Some {
            label_not_higher(m, eps, min_points, first, sa, pa, ra, second, sb, pb, rb, x);
            label_not_higher(m, eps, min_points, second, sb, pb, rb, first, sa, pa, ra, x);
        } else if second[x] is Some {
            label_not_higher(m, eps, min_points, second, sb, pb, rb, first, sa, pa, ra, x);
        }
    }
    assert(first =~= second);
}

/// The distance matrix over given files is determined.
pub proof fn distance_matrix_is_unique(
    first: Seq<Seq<i32>>,
    second: Seq<Seq<i32>>,
    files: Seq<FileRecord>,
    scores: Seq<Vec<Option<u8>>>,
    picked: Seq<usize>,
)
    requires
        is_distance_matrix(first, files, scores, picked),
        is_distance_matrix(second, files, scores, picked),
    ensures
        first == second,
{
    assert forall|a: int| 0 <= a < first.len() implies first[a] == second[a] by {
        assert(first[a].len() == second[a].len());
        assert forall|b: int| 0 <= b < first[a].len() implies first[a][b] == second[a][b] by {
            assert(first[a][b] == second[a][b]);
        }
        assert(first[a] =~= second[a]);
    }
    assert(first =~= second);
}

/// Clustering given files under given scores has one result.
pub proof fn clustering_is_unique(
    first: Seq<ClusterView>,
    second: Seq<ClusterView>,
    files: Seq<FileRecord>,
    scores: Seq<Vec<Option<u8>>>,
    subset: Seq<usize>,
    min_similarity: u8,
    min_cluster_size: usize,
)
    requires
        subset.len() <= usize::MAX,
        is_clustering(first, files, scores, subset, min_similarity, min_cluster_size),
        is_clustering(second, files, scores, subset, min_similarity, min_cluster_size),
    ensures
        first == second,
{
    let kept = hashable(files, subset, subset.len() as int);
    if subset.len() < min_cluster_size || kept.len() < min_cluster_size {
    } else {
        let eps = 100 - min_similarity;
        let mp = min_cluster_size as int;
        let (ma, la) = choose|m: Seq<Seq<i32>>, labels: Seq<Option<usize>>|
            #![trigger is_dbscan_result(m, 100 - min_similarity, min_cluster_size as int, labels)]
            {
                &&& is_distance_matrix(m, files, scores, kept)
                &&& is_dbscan_result(m, 100 - min_similarity, min_cluster_size as int, labels)
                &&& first == aggregate_of(pick(files, kept), labels, m)
            };
        let (mb, lb) = choose|m: Seq<Seq<i32>>, labels: Seq<Option<usize>>|
            #![trigger is_dbscan_result(m, 100 - min_similarity, min_cluster_size as int, labels)]
            {
                &&& is_distance_matrix(m, files, scores, kept)
                &&& is_dbscan_result(m, 100 - min_similarity, min_cluster_size as int, labels)
                &&& second == aggregate_of(pick(files, kept), labels, m)
            };
        distance_matrix_is_unique(ma, mb, files, scores, kept);
        distance_matrix_properties(ma, files, scores, kept);
        crate::batch::hashable_length(files, subset, subset.len() as int);
        dbscan_result_is_unique(ma, eps, mp, la, lb);
    }
}

/// Clustering bucket by bucket has one result.
pub proof fn batched_is_unique(
    first: Seq<ClusterView>,
    second: Seq<ClusterView>,
    files: Seq<FileRecord>,
    scores: Seq<Vec<Option<u8>>>,
    min_similarity: u8,
    min_cluster_size: usize,
)
    requires
        files.len() <= usize::MAX,
        is_batched(first, files, scores, min_similarity, min_cluster_size),
        is_batched(second, files, scores, min_similarity, min_cluster_size),
    ensures
        first == second,
{
    let buckets = lsh_buckets(files);
    let left = choose|parts: Seq<Seq<ClusterView>>|
        {
            &&& parts.len() == buckets.len()
            &&& forall|b: int|
                0 <= b < buckets.len() ==> is_part(
                    #[trigger] parts[b],
                    files,
                    scores,
                    buckets[b],
                    min_similarity,
                    min_cluster_size,
                )
            &&& first == merged(joined(parts, parts.len() as int))
        };
    let right = choose|parts: Seq<Seq<ClusterView>>|
        {
            &&& parts.len() == buckets.len()
            &&& forall|b: int|
                0 <= b < buckets.len() ==> is_part(
                    #[trigger] parts[b],
                    files,
                    scores,
                    buckets[b],
                    min_similarity,
                    min_cluster_size,
                )
            &&& second == merged(joined(parts, parts.len() as int))
        };
    let labels = crate::group::labels_of(crate::lsh::lsh_keys(files));
    assert forall|b: int| 0 <= b < buckets.len() implies left[b] == right[b] by {
        assert(is_part(left[b], files, scores, buckets[b], min_similarity, min_cluster_size));
        assert(is_part(right[b], files, scores, buckets[b], min_similarity, min_cluster_size));
        if buckets[b].len() >= min_cluster_size {
            crate::group::heads_properties(labels, labels.len() as int);
            let h = crate::cluster::heads(labels, labels.len() as int);
            crate::cluster::members_of_properties(
                labels,
                labels[h[b] as int]->0,
                labels.len() as int,
            );
            crate::cluster::ascending_len(buckets[b], labels.len() as int);
            clustering_is_unique(
                left[b],
                right[b],
                files,
                scores,
                buckets[b],
                min_similarity,
                min_cluster_size,
            );
        }
    }
    assert(left =~= right);
}

} // verus!
