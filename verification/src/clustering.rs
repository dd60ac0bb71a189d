//! Detection of groups of similar files.

use crate::cluster::{
    aggregate_clusters, aggregate_of, ascending_below, clusters_of, picked_total_bounded, pick,
    ClusterView, ClusteringError, LargeFileCluster,
};
use crate::dbscan::{is_dbscan_result, simple_dbscan};
use crate::distance::{all_positions, build_matrix_over, is_distance_matrix, similarity_to_distance};
use crate::matrix::dimension_fits;
use crate::model::{records_of, total_size, FileRecord, SimpleFileInfo};
use vstd::prelude::*;

verus! {

/// The positions among the first `upto` of `subset` whose file carries a
/// fuzzy hash, in the order of `subset`.
pub open spec fn hashable(files: Seq<FileRecord>, subset: Seq<usize>, upto: int) -> Seq<usize>
    decreases upto,
{
    if upto <= 0 {
        Seq::empty()
    } else if files[subset[upto - 1] as int].fuzzy_hash is Some {
        hashable(files, subset, upto - 1).push(subset[upto - 1])
    } else {
        hashable(files, subset, upto - 1)
    }
}

/// The positions `0 .. n`.
pub open spec fn positions(n: nat) -> Seq<usize> {
    Seq::new(n, |i: int| i as usize)
}

/// A similarity threshold that clustering accepts.
pub open spec fn valid_similarity(min_similarity: u8) -> bool {
    50 <= min_similarity <= 100
}

/// `out` is the result of clustering the files at the positions `subset`:
/// nothing where fewer than `min_cluster_size` files are given or carry a
/// hash; otherwise the aggregate of a density-based labelling, with threshold
/// `100 - min_similarity`, of the distance matrix over the files that carry
/// a hash.
pub open spec fn is_clustering(
    out: Seq<ClusterView>,
    files: Seq<FileRecord>,
    scores: Seq<Vec<Option<u8>>>,
    subset: Seq<usize>,
    min_similarity: u8,
    min_cluster_size: usize,
) -> bool {
    let kept = hashable(files, subset, subset.len() as int);
    if subset.len() < min_cluster_size || kept.len() < min_cluster_size {
        out == Seq::<ClusterView>::empty()
    } else {
        exists|m: Seq<Seq<i32>>, labels: Seq<Option<usize>>|
            #![trigger is_dbscan_result(m, 100 - min_similarity, min_cluster_size as int, labels)]
            {
                &&& is_distance_matrix(m, files, scores, kept)
                &&& is_dbscan_result(m, 100 - min_similarity, min_cluster_size as int, labels)
                &&& out == aggregate_of(pick(files, kept), labels, m)
            }
    }
}

/// Filtering by hash keeps positions ascending, keeps no more than it was
/// given, and keeps only files that carry a hash.
pub proof fn hashable_properties(files: Seq<FileRecord>, subset: Seq<usize>, upto: int, n: int)
    requires
        ascending_below(subset, n),
        0 <= upto <= subset.len(),
    ensures
        ascending_below(hashable(files, subset, upto), n),
        hashable(files, subset, upto).len() <= upto,
        upto > 0 && hashable(files, subset, upto).len() > 0 ==> hashable(
            files,
            subset,
            upto,
        ).last() <= subset[upto - 1],
        forall|k: int|
            0 <= k < hashable(files, subset, upto).len() ==> files[(#[trigger] hashable(
                files,
                subset,
                upto,
            )[k]) as int].fuzzy_hash is Some,
    decreases upto,
{
    if upto > 0 {
        hashable_properties(files, subset, upto - 1, n);
        let prev = hashable(files, subset, upto - 1);
        if upto - 1 > 0 && prev.len() > 0 {
            assert(subset[upto - 2] < subset[upto - 1]);
        }
    }
}

/// The positions of `subset` whose file carries a fuzzy hash.
fn keep_hashable(files: &[SimpleFileInfo], subset: &Vec<usize>) -> (kept: Vec<usize>)
    requires
        forall|a: int| 0 <= a < subset@.len() ==> (#[trigger] subset@[a]) < files@.len(),
    ensures
        kept@ == hashable(records_of(files@), subset@, subset@.len() as int),
{
    let mut kept: Vec<usize> = Vec::new();
    let mut k: usize = 0;
    while k < subset.len()
        invariant
            k <= subset.len(),
            forall|a: int| 0 <= a < subset@.len() ==> (#[trigger] subset@[a]) < files@.len(),
            kept@ == hashable(records_of(files@), subset@, k as int),
        decreases subset.len() - k,
    {
        if files[subset[k]].has_hash() {
            kept.push(subset[k]);
        }
        k = k + 1;
    }
    kept
}

/// Copies of the files at the positions `picked`.
fn copy_picked(files: &[SimpleFileInfo], picked: &Vec<usize>) -> (copies: Vec<SimpleFileInfo>)
    requires
        forall|a: int| 0 <= a < picked@.len() ==> (#[trigger] picked@[a]) < files@.len(),
    ensures
        copies@.len() == picked@.len(),
        records_of(copies@) == pick(records_of(files@), picked@),
{
    let mut copies: Vec<SimpleFileInfo> = Vec::new();
    let mut k: usize = 0;
    while k < picked.len()
        invariant
            k <= picked.len(),
            forall|a: int| 0 <= a < picked@.len() ==> (#[trigger] picked@[a]) < files@.len(),
            copies@.len() == k,
            forall|t: int|
                0 <= t < k ==> (#[trigger] copies@[t])@ == files@[picked@[t] as int]@,
        decreases picked.len() - k,
    {
        let copy = files[picked[k]].duplicate();
        copies.push(copy);
        k = k + 1;
    }
    proof {
        assert(records_of(copies@) =~= pick(records_of(files@), picked@));
    }
    copies
}

/// Clusters the files at the positions `subset`.
pub fn cluster_positions(
    files: &[SimpleFileInfo],
    scores: &Vec<Vec<Option<u8>>>,
    subset: &Vec<usize>,
    min_similarity: u8,
    min_cluster_size: usize,
) -> (clusters: Vec<LargeFileCluster>)
    requires
        valid_similarity(min_similarity),
        ascending_below(subset@, files@.len() as int),
        dimension_fits(hashable(records_of(files@), subset@, subset@.len() as int).len()),
        total_size(records_of(files@)) <= u64::MAX,
    ensures
        is_clustering(
            clusters_of(clusters@),
            records_of(files@),
            scores@,
            subset@,
            min_similarity,
            min_cluster_size,
        ),
{
    let ghost recs = records_of(files@);
    if subset.len() < min_cluster_size {
        let none: Vec<LargeFileCluster> = Vec::new();
        assert(clusters_of(none@) =~= Seq::<ClusterView>::empty());
        return none;
    }
    let kept = keep_hashable(files, subset);
    proof {
        hashable_properties(recs, subset@, subset@.len() as int, files@.len() as int);
    }
    if kept.len() < min_cluster_size {
        let none: Vec<LargeFileCluster> = Vec::new();
        assert(clusters_of(none@) =~= Seq::<ClusterView>::empty());
        return none;
    }
    let hashable_files = copy_picked(files, &kept);
    let distances = build_matrix_over(files, scores, &kept);
    let epsilon = similarity_to_distance(min_similarity);
    let cluster_labels = simple_dbscan(&distances, epsilon, min_cluster_size);
    proof {
        picked_total_bounded(recs, kept@, files@.len() as int);
    }
    let ghost labels = cluster_labels@;
    let clusters = aggregate_clusters(&hashable_files, cluster_labels, &distances);
    proof {
        assert(is_dbscan_result(
            distances@,
            100 - min_similarity,
            min_cluster_size as int,
            labels,
        ));
    }
    clusters
}

/// Finds the groups of similar files among `files`.
///
/// `scores[i][j]`, for `i < j`, holds the outcome of comparing the fuzzy
/// hashes of files `i` and `j`. A threshold outside 50..=100 is refused
/// before any other work. Otherwise the files that carry a hash are clustered
/// by density with the distance threshold `100 - min_similarity`; nothing is
/// found where fewer than `min_cluster_size` files are given or carry a hash.
pub fn detect_large_file_clusters(
    files: &[SimpleFileInfo],
    scores: &Vec<Vec<Option<u8>>>,
    min_similarity: u8,
    min_cluster_size: usize,
) -> (result: Result<Vec<LargeFileCluster>, ClusteringError>)
    requires
        dimension_fits(
            hashable(records_of(files@), positions(files@.len()), files@.len() as int).len(),
        ),
        total_size(records_of(files@)) <= u64::MAX,
    ensures
        !valid_similarity(min_similarity) ==> result == Err::<
            Vec<LargeFileCluster>,
            ClusteringError,
        >(ClusteringError::InvalidSimilarity(min_similarity)),
        valid_similarity(min_similarity) ==> result is Ok && is_clustering(
            clusters_of(result->Ok_0@),
            records_of(files@),
            scores@,
            positions(files@.len()),
            min_similarity,
            min_cluster_size,
        ),
{
    if min_similarity < 50 || min_similarity > 100 {
        return Err(ClusteringError::InvalidSimilarity(min_similarity));
    }
    let subset = all_positions(files.len());
    proof {
        assert(subset@ =~= positions(files@.len()));
    }
    Ok(cluster_positions(files, scores, &subset, min_similarity, min_cluster_size))
}

} // verus!
