//! What holds of every clustering.

use crate::cluster::{
    aggregate_of, ascending_below, heads, is_head, members_of, members_of_properties, pick,
    ClusterView,
};
use crate::clustering::{hashable, hashable_properties, is_clustering};
use crate::dbscan::{
    explains, is_core, is_dbscan_result, joined_through, neighborhood, neighborhood_members, within,
};
use crate::distance::{distance_matrix_properties, is_distance_matrix};
use crate::group::heads_properties;
use crate::model::FileRecord;
use vstd::prelude::*;

verus! {

/// `m` holds the same distance in both directions.
pub open spec fn symmetric(m: Seq<Seq<i32>>) -> bool {
    forall|i: int, j: int| 0 <= i < m.len() && 0 <= j < m.len() ==> #[trigger] m[i][j] == m[j][i]
}

/// No file lies on the border of two clusters: the core points that have a
/// labelled file that is no core point in their neighbourhood are all in one
/// cluster.
pub open spec fn borders_uncontested(
    m: Seq<Seq<i32>>,
    eps: int,
    min_points: int,
    labels: Seq<Option<usize>>,
) -> bool {
    forall|x: int, q: int, s: int|
        0 <= x < m.len() && 0 <= q < m.len() && 0 <= s < m.len() && labels[x] is Some && !is_core(
            m,
            eps,
            min_points,
            x,
        ) && is_core(m, eps, min_points, q) && is_core(m, eps, min_points, s) && #[trigger] within(
            m,
            eps,
            q,
            x,
        ) && #[trigger] within(m, eps, s, x) ==> labels[q] == labels[s]
}

/// A list of distinct positions that all occur in another list of distinct
/// positions is no longer than that list.
pub proof fn included_is_shorter(a: Seq<usize>, b: Seq<usize>)
    requires
        a.no_duplicates(),
        b.no_duplicates(),
        forall|t: int| 0 <= t < a.len() ==> b.contains(#[trigger] a[t]),
    ensures
        a.len() <= b.len(),
{
    a.unique_seq_to_set();
    b.unique_seq_to_set();
    vstd::seq_lib::seq_to_set_is_finite(b);
    assert(a.to_set().subset_of(b.to_set())) by {
        assert forall|x: usize| a.to_set().contains(x) implies b.to_set().contains(x) by {
            let t = choose|t: int| 0 <= t < a.len() && a[t] == x;
            assert(b.contains(a[t]));
        }
    }
    vstd::set_lib::lemma_len_subset(a.to_set(), b.to_set());
}

/// Ascending positions are distinct.
pub proof fn ascending_is_distinct(a: Seq<usize>, n: int)
    requires
        ascending_below(a, n),
    ensures
        a.no_duplicates(),
{
    assert forall|i: int, j: int| 0 <= i < a.len() && 0 <= j < a.len() && i != j implies a[i]
        != a[j] by {
        if i < j {
            assert(a[i] < a[j]);
        } else {
            assert(a[j] < a[i]);
        }
    }
}

/// In a clustering over a symmetric matrix in which no file lies on the
/// border of two clusters, every cluster has at least `min_points` members.
pub proof fn clusters_reach_min_points(
    m: Seq<Seq<i32>>,
    eps: int,
    min_points: int,
    labels: Seq<Option<usize>>,
    c: usize,
)
    requires
        m.len() <= usize::MAX,
        is_dbscan_result(m, eps, min_points, labels),
        symmetric(m),
        borders_uncontested(m, eps, min_points, labels),
        exists|p: int| 0 <= p < labels.len() && labels[p] == Some(c),
    ensures
        members_of(labels, c, labels.len() as int).len() >= min_points,
{
    let n = m.len() as int;
    let (seeds, parent, rank) = choose|seeds: Seq<int>, parent: Seq<int>, rank: Seq<int>|
        explains(m, eps, min_points, labels, seeds, parent, rank);
    let p = choose|p: int| 0 <= p < labels.len() && labels[p] == Some(c);
    assert(labels[p] is Some);
    let s = seeds[c as int];
    assert(labels[s] == Some(c));
    let around = neighborhood(m, eps, s, n);
    let members = members_of(labels, c, n);
    neighborhood_members(m, eps, s, n);
    members_of_properties(labels, c, n);
    assert forall|t: int| 0 <= t < around.len() implies members.contains(#[trigger] around[t]) by {
        let j = around[t] as int;
        assert(within(m, eps, s, j));
        assert(labels[j] is Some && labels[j]->0 <= c);
        if is_core(m, eps, min_points, j) {
            assert(m[j][s] == m[s][j]);
            assert(within(m, eps, j, s));
            assert(labels[s]->0 <= labels[j]->0);
        } else {
            assert(j != seeds[labels[j]->0 as int]);
            assert(joined_through(m, eps, min_points, labels, parent, rank, j) && 0 <= parent[j]);
            let q = parent[j];
            assert(within(m, eps, q, j));
            assert(labels[q] == labels[s]);
        }
        assert(labels[j] == Some(c));
    }
    ascending_is_distinct(around, n);
    ascending_is_distinct(members, n);
    included_is_shorter(around, members);
}

/// Where at most three files make a cluster and every file is within the
/// threshold of itself, a symmetric matrix puts no file on the border of two
/// clusters: a file with two core points around it has three files in its
/// neighbourhood and is a core point itself.
pub proof fn small_clusters_have_uncontested_borders(
    m: Seq<Seq<i32>>,
    eps: int,
    min_points: int,
    labels: Seq<Option<usize>>,
)
    requires
        m.len() <= usize::MAX,
        symmetric(m),
        forall|i: int| 0 <= i < m.len() ==> #[trigger] within(m, eps, i, i),
        min_points <= 3,
    ensures
        borders_uncontested(m, eps, min_points, labels),
{
    let n = m.len() as int;
    assert forall|x: int, q: int, s: int|
        0 <= x < m.len() && 0 <= q < m.len() && 0 <= s < m.len() && labels[x] is Some && !is_core(
            m,
            eps,
            min_points,
            x,
        ) && is_core(m, eps, min_points, q) && is_core(m, eps, min_points, s) && #[trigger] within(
            m,
            eps,
            q,
            x,
        ) && #[trigger] within(m, eps, s, x) implies labels[q] == labels[s] by {
        if q != s {
            assert(m[x][q] == m[q][x]);
            assert(m[x][s] == m[s][x]);
            assert(within(m, eps, x, q));
            assert(within(m, eps, x, s));
            assert(within(m, eps, x, x));
            neighborhood_members(m, eps, x, n);
            let around = neighborhood(m, eps, x, n);
            let a = choose|a: int| 0 <= a < around.len() && around[a] == x as usize;
            let b = choose|b: int| 0 <= b < around.len() && around[b] == q as usize;
            let c = choose|c: int| 0 <= c < around.len() && around[c] == s as usize;
            assert(a != b && a != c && b != c);
        }
    }
}

/// For a single clustering run, no file path appears in more than one
/// cluster, nor twice in one, provided that the files that are clustered have
/// different paths.
pub proof fn clusters_share_no_path(
    out: Seq<ClusterView>,
    files: Seq<FileRecord>,
    scores: Seq<Vec<Option<u8>>>,
    subset: Seq<usize>,
    min_similarity: u8,
    min_cluster_size: usize,
)
    requires
        files.len() <= usize::MAX,
        ascending_below(subset, files.len() as int),
        is_clustering(out, files, scores, subset, min_similarity, min_cluster_size),
        forall|x: int, y: int|
            0 <= x < y < subset.len() && files[subset[x] as int].fuzzy_hash is Some
                && files[subset[y] as int].fuzzy_hash is Some ==> #[trigger] files[subset[x] as int].path
                != #[trigger] files[subset[y] as int].path,
    ensures
        forall|a: int, b: int, i: int, j: int|
            0 <= a < b < out.len() && 0 <= i < out[a].files.len() && 0 <= j < out[b].files.len()
                ==> (#[trigger] out[a].files[i]).path != (#[trigger] out[b].files[j]).path,
        forall|a: int, i: int, j: int|
            0 <= a < out.len() && 0 <= i < j < out[a].files.len() ==> (
            #[trigger] out[a].files[i]).path != (#[trigger] out[a].files[j]).path,
{
    let kept = hashable(files, subset, subset.len() as int);
    if subset.len() < min_cluster_size || kept.len() < min_cluster_size {
    } else {
        let (m, labels) = choose|m: Seq<Seq<i32>>, labels: Seq<Option<usize>>|
            #![trigger is_dbscan_result(m, 100 - min_similarity, min_cluster_size as int, labels)]
            {
                &&& is_distance_matrix(m, files, scores, kept)
                &&& is_dbscan_result(m, 100 - min_similarity, min_cluster_size as int, labels)
                &&& out == aggregate_of(pick(files, kept), labels, m)
            };
        let n = labels.len() as int;
        let inner = pick(files, kept);
        let h = heads(labels, n);
        hashable_properties(files, subset, subset.len() as int, files.len() as int);
        crate::cluster::ascending_len(kept, files.len() as int);
        heads_properties(labels, n);
        kept_paths_differ(files, subset, subset.len() as int);
        assert forall|a: int, b: int, i: int, j: int|
            0 <= a < b < out.len() && 0 <= i < out[a].files.len() && 0 <= j
                < out[b].files.len() implies (#[trigger] out[a].files[i]).path != (
        #[trigger] out[b].files[j]).path by {
            let la = labels[h[a] as int]->0;
            let lb = labels[h[b] as int]->0;
            let ma = members_of(labels, la, n);
            let mb = members_of(labels, lb, n);
            members_of_properties(labels, la, n);
            members_of_properties(labels, lb, n);
            assert(h[a] < h[b]);
            assert(is_head(labels, h[b] as int));
            assert(is_head(labels, h[a] as int));
            assert(labels[h[a] as int] != labels[h[b] as int]);
            assert(la != lb);
            let x = ma[i] as int;
            let y = mb[j] as int;
            assert(labels[x] == Some(la));
            assert(labels[y] == Some(lb));
            assert(x != y);
            assert(out[a].files[i] == inner[x]);
            assert(out[b].files[j] == inner[y]);
            if x < y {
                assert(files[kept[x] as int].path != files[kept[y] as int].path);
            } else {
                assert(files[kept[y] as int].path != files[kept[x] as int].path);
            }
        }
        assert forall|a: int, i: int, j: int|
            0 <= a < out.len() && 0 <= i < j < out[a].files.len() implies (
        #[trigger] out[a].files[i]).path != (#[trigger] out[a].files[j]).path by {
            let la = labels[h[a] as int]->0;
            let ma = members_of(labels, la, n);
            members_of_properties(labels, la, n);
            let x = ma[i] as int;
            let y = ma[j] as int;
            assert(ma[i] < ma[j]);
            assert(out[a].files[i] == inner[x]);
            assert(out[a].files[j] == inner[y]);
            assert(files[kept[x] as int].path != files[kept[y] as int].path);
        }
    }
}

/// Position `v` is one of the first `upto` of `subset`, and its file carries
/// a hash.
pub open spec fn given_with_hash(
    files: Seq<FileRecord>,
    subset: Seq<usize>,
    upto: int,
    v: usize,
) -> bool {
    exists|u: int|
        0 <= u < upto && #[trigger] subset[u] == v && files[subset[u] as int].fuzzy_hash is Some
}

/// The files kept for clustering have different paths where the files given
/// that carry a hash have.
proof fn kept_paths_differ(files: Seq<FileRecord>, subset: Seq<usize>, upto: int)
    requires
        0 <= upto <= subset.len(),
        forall|x: int, y: int|
            0 <= x < y < subset.len() && files[subset[x] as int].fuzzy_hash is Some
                && files[subset[y] as int].fuzzy_hash is Some ==> #[trigger] files[subset[x] as int].path
                != #[trigger] files[subset[y] as int].path,
    ensures
        forall|x: int, y: int|
            0 <= x < y < hashable(files, subset, upto).len() ==> files[(#[trigger] hashable(
                files,
                subset,
                upto,
            )[x]) as int].path != files[(#[trigger] hashable(files, subset, upto)[y]) as int].path,
        forall|x: int|
            0 <= x < hashable(files, subset, upto).len() ==> given_with_hash(
                files,
                subset,
                upto,
                #[trigger] hashable(files, subset, upto)[x],
            ),
    decreases upto,
{
    if upto > 0 {
        kept_paths_differ(files, subset, upto - 1);
        let prev = hashable(files, subset, upto - 1);
        let cur = hashable(files, subset, upto);
        assert forall|x: int| 0 <= x < cur.len() implies given_with_hash(
            files,
            subset,
            upto,
            #[trigger] cur[x],
        ) by {
            if x < prev.len() {
                assert(given_with_hash(files, subset, upto - 1, prev[x]));
                let u = choose|u: int|
                    0 <= u < upto - 1 && #[trigger] subset[u] == prev[x]
                        && files[subset[u] as int].fuzzy_hash is Some;
                assert(subset[u] == cur[x]);
            } else {
                assert(subset[upto - 1] == cur[x]);
            }
        }
        if files[subset[upto - 1] as int].fuzzy_hash is Some {
            assert forall|x: int, y: int| 0 <= x < y < cur.len() implies files[(
            #[trigger] cur[x]) as int].path != files[(#[trigger] cur[y]) as int].path by {
                if y == cur.len() - 1 {
                    assert(given_with_hash(files, subset, upto - 1, prev[x]));
                    let u = choose|u: int|
                        0 <= u < upto - 1 && #[trigger] subset[u] == prev[x]
                            && files[subset[u] as int].fuzzy_hash is Some;
                    assert(files[subset[u] as int].path != files[subset[upto - 1] as int].path);
                } else {
                    assert(files[prev[x] as int].path != files[prev[y] as int].path);
                }
            }
        }
    }
}

/// Every cluster that clustering returns has at least `min_cluster_size`
/// files, where clusters of at most three files are asked for. From four
/// files on, a file on the border of two clusters goes to the one found
/// first and can leave the other with fewer files.
pub proof fn clusters_reach_minimum_size(
    out: Seq<ClusterView>,
    files: Seq<FileRecord>,
    scores: Seq<Vec<Option<u8>>>,
    subset: Seq<usize>,
    min_similarity: u8,
    min_cluster_size: usize,
)
    requires
        files.len() <= usize::MAX,
        ascending_below(subset, files.len() as int),
        is_clustering(out, files, scores, subset, min_similarity, min_cluster_size),
        min_similarity <= 100,
        min_cluster_size <= 3,
    ensures
        forall|k: int| 0 <= k < out.len() ==> (#[trigger] out[k]).files.len() >= min_cluster_size,
{
    let kept = hashable(files, subset, subset.len() as int);
    if subset.len() < min_cluster_size || kept.len() < min_cluster_size {
    } else {
        let eps = 100 - min_similarity;
        let mp = min_cluster_size as int;
        let (m, labels) = choose|m: Seq<Seq<i32>>, labels: Seq<Option<usize>>|
            #![trigger is_dbscan_result(m, 100 - min_similarity, min_cluster_size as int, labels)]
            {
                &&& is_distance_matrix(m, files, scores, kept)
                &&& is_dbscan_result(m, 100 - min_similarity, min_cluster_size as int, labels)
                &&& out == aggregate_of(pick(files, kept), labels, m)
            };
        let n = labels.len() as int;
        let h = heads(labels, n);
        hashable_properties(files, subset, subset.len() as int, files.len() as int);
        crate::cluster::ascending_len(kept, files.len() as int);
        heads_properties(labels, n);
        distance_matrix_properties(m, files, scores, kept);
        assert(symmetric(m));
        assert forall|i: int| 0 <= i < m.len() implies #[trigger] within(m, eps, i, i) by {
            assert(m[i][i] == 0);
        }
        small_clusters_have_uncontested_borders(m, eps, mp, labels);
        assert forall|k: int| 0 <= k < out.len() implies (#[trigger] out[k]).files.len()
            >= min_cluster_size by {
            let c = labels[h[k] as int]->0;
            assert(is_head(labels, h[k] as int));
            assert(labels[h[k] as int] == Some(c));
            clusters_reach_min_points(m, eps, mp, labels, c);
        }
    }
}

} // verus!
