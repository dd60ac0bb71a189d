//! Clustering at scale: bucket by hash, cluster each bucket, merge.

use crate::cluster::{
    aggregate_of, ascending_below, clusters_of, heads, pick, ClusterView,
    ClusteringError, LargeFileCluster,
};
use crate::clustering::{
    cluster_positions, detect_large_file_clusters, hashable, is_clustering,
    positions, valid_similarity,
};
use crate::dbscan::is_dbscan_result;
use crate::distance::is_distance_matrix;
use crate::group::{labels_of, lists_of};
use crate::lsh::{compute_lsh_buckets, lsh_buckets, lsh_keys};
use crate::matrix::dimension_fits;
use crate::merge::{grand_total, merge_overlapping_clusters, merged};
use crate::model::{records_of, total_size, total_size_push, FileRecord, SimpleFileInfo};
use crate::totals::{aggregate_total, grand_total_concat, groups_total, groups_total_bounded};
use vstd::prelude::*;

verus! {

/// The clusters of the first `upto` parts, one part after the other.
pub open spec fn joined(parts: Seq<Seq<ClusterView>>, upto: int) -> Seq<ClusterView>
    decreases upto,
{
    if upto <= 0 {
        Seq::empty()
    } else {
        joined(parts, upto - 1) + parts[upto - 1]
    }
}

/// `part` is what bucket `bucket` contributes: its clustering where it holds
/// at least `min_cluster_size` files, and nothing otherwise.
pub open spec fn is_part(
    part: Seq<ClusterView>,
    files: Seq<FileRecord>,
    scores: Seq<Vec<Option<u8>>>,
    bucket: Seq<usize>,
    min_similarity: u8,
    min_cluster_size: usize,
) -> bool {
    if bucket.len() >= min_cluster_size {
        is_clustering(part, files, scores, bucket, min_similarity, min_cluster_size)
    } else {
        part == Seq::<ClusterView>::empty()
    }
}

/// `out` is the result of clustering bucket by bucket: the clusters of the
/// buckets, taken in the order of the buckets, with overlapping clusters
/// merged.
pub open spec fn is_batched(
    out: Seq<ClusterView>,
    files: Seq<FileRecord>,
    scores: Seq<Vec<Option<u8>>>,
    min_similarity: u8,
    min_cluster_size: usize,
) -> bool {
    let buckets = lsh_buckets(files);
    exists|parts: Seq<Seq<ClusterView>>|
        {
            &&& parts.len() == buckets.len()
            &&& forall|b: int|
                0 <= b < buckets.len() ==> is_part(
                    #[trigger] parts[b],
                    files,
                    scores,
                    buckets[b],
                    min_similarity,
                    min_cluster_size,
                )
            &&& out == merged(joined(parts, parts.len() as int))
        }
}

/// Every bucket is small enough for its distance matrix to exist.
pub open spec fn buckets_fit(files: Seq<FileRecord>) -> bool {
    forall|b: int|
        0 <= b < lsh_buckets(files).len() ==> dimension_fits((#[trigger] lsh_buckets(files)[b]).len())
}

/// The files that carry a hash among those picked weigh no more than those
/// picked.
pub proof fn hashable_total(files: Seq<FileRecord>, subset: Seq<usize>, upto: int)
    requires
        0 <= upto <= subset.len(),
    ensures
        total_size(pick(files, hashable(files, subset, upto))) <= total_size(
            pick(files, subset.take(upto)),
        ),
    decreases upto,
{
    if upto > 0 {
        hashable_total(files, subset, upto - 1);
        let prev = hashable(files, subset, upto - 1);
        assert(pick(files, subset.take(upto)) =~= pick(files, subset.take(upto - 1)).push(
            files[subset[upto - 1] as int],
        ));
        total_size_push(pick(files, subset.take(upto - 1)), files[subset[upto - 1] as int]);
        if files[subset[upto - 1] as int].fuzzy_hash is Some {
            assert(pick(files, prev.push(subset[upto - 1])) =~= pick(files, prev).push(
                files[subset[upto - 1] as int],
            ));
            total_size_push(pick(files, prev), files[subset[upto - 1] as int]);
        }
    } else {
        assert(pick(files, hashable(files, subset, upto)) =~= Seq::<FileRecord>::empty());
    }
}

/// The clusters found among the picked files weigh, all together, no more
/// than the picked files.
pub proof fn clustering_total(
    out: Seq<ClusterView>,
    files: Seq<FileRecord>,
    scores: Seq<Vec<Option<u8>>>,
    subset: Seq<usize>,
    min_similarity: u8,
    min_cluster_size: usize,
)
    requires
        subset.len() <= usize::MAX,
        is_clustering(out, files, scores, subset, min_similarity, min_cluster_size),
    ensures
        grand_total(out, out.len() as int) <= total_size(pick(files, subset)),
{
    let kept = hashable(files, subset, subset.len() as int);
    if subset.len() < min_cluster_size || kept.len() < min_cluster_size {
    } else {
        let (m, labels) = choose|m: Seq<Seq<i32>>, labels: Seq<Option<usize>>|
            #![trigger is_dbscan_result(m, 100 - min_similarity, min_cluster_size as int, labels)]
            {
                &&& is_distance_matrix(m, files, scores, kept)
                &&& is_dbscan_result(m, 100 - min_similarity, min_cluster_size as int, labels)
                &&& out == aggregate_of(pick(files, kept), labels, m)
            };
        let inner = pick(files, kept);
        hashable_length(files, subset, subset.len() as int);
        let k = heads(labels, labels.len() as int).len() as int;
        aggregate_total(inner, labels, m, k);
        groups_total_bounded(inner, labels, k);
        hashable_total(files, subset, subset.len() as int);
        assert(subset.take(subset.len() as int) =~= subset);
    }
}

/// Filtering by hash keeps no more than it was given.
pub proof fn hashable_length(files: Seq<FileRecord>, subset: Seq<usize>, upto: int)
    requires
        0 <= upto <= subset.len(),
    ensures
        hashable(files, subset, upto).len() <= upto,
    decreases upto,
{
    if upto > 0 {
        hashable_length(files, subset, upto - 1);
    }
}

/// A matrix over fewer files fits where one over more files does.
pub proof fn dimension_fits_smaller(small: nat, large: nat)
    requires
        small <= large,
        dimension_fits(large),
    ensures
        dimension_fits(small),
{
    assert(small * small <= large * large) by (nonlinear_arith)
        requires
            small <= large,
    ;
}

/// Finds the groups of similar files among `files` without comparing every
/// file with every other.
///
/// Where there are no more than `batch_size` files, they are clustered
/// directly. Otherwise the files are put into buckets by their hashes, each
/// bucket of at least `min_cluster_size` files is clustered on its own, and
/// the clusters of all buckets are merged where they share a file path. A
/// threshold outside 50..=100 is refused before any other work.
pub fn detect_clusters_batched(
    files: &[SimpleFileInfo],
    scores: &Vec<Vec<Option<u8>>>,
    min_similarity: u8,
    min_cluster_size: usize,
    batch_size: usize,
) -> (result: Result<Vec<LargeFileCluster>, ClusteringError>)
    requires
        within_limits(records_of(files@), batch_size),
    ensures
        is_batched_outcome(
            result,
            records_of(files@),
            scores@,
            min_similarity,
            min_cluster_size,
            batch_size,
        ),
{
    if min_similarity < 50 || min_similarity > 100 {
        return Err(ClusteringError::InvalidSimilarity(min_similarity));
    }
    if files.len() <= batch_size {
        return detect_large_file_clusters(files, scores, min_similarity, min_cluster_size);
    }
    let ghost recs = records_of(files@);
    let buckets = compute_lsh_buckets(files);
    let ghost lists = lsh_buckets(recs);
    let ghost labels = labels_of(lsh_keys(recs));
    let mut all_clusters: Vec<LargeFileCluster> = Vec::new();
    let ghost mut parts: Seq<Seq<ClusterView>> = Seq::empty();
    let mut b: usize = 0;
    proof {
        assert(clusters_of(all_clusters@) =~= joined(parts, 0));
    }
    while b < buckets.len()
        invariant
            b <= buckets.len(),
            recs == records_of(files@),
            lists == lsh_buckets(recs),
            lists == lists_of(buckets@),
            labels == labels_of(lsh_keys(recs)),
            labels.len() == files@.len(),
            total_size(recs) <= u64::MAX,
            buckets_fit(recs),
            forall|k: int|
                0 <= k < buckets@.len() ==> ascending_below(
                    (#[trigger] buckets@[k])@,
                    files@.len() as int,
                ),
            parts.len() == b,
            forall|k: int|
                0 <= k < b ==> is_part(
                    #[trigger] parts[k],
                    recs,
                    scores@,
                    lists[k],
                    min_similarity,
                    min_cluster_size,
                ),
            valid_similarity(min_similarity),
            clusters_of(all_clusters@) == joined(parts, b as int),
            grand_total(clusters_of(all_clusters@), all_clusters@.len() as int) <= groups_total(
                recs,
                labels,
                b as int,
            ),
        decreases buckets.len() - b,
    {
        let bucket = &buckets[b];
        let ghost before = clusters_of(all_clusters@);
        let ghost part: Seq<ClusterView> = Seq::empty();
        proof {
            assert(lists[b as int] == bucket@);
        }
        if bucket.len() >= min_cluster_size {
            proof {
                hashable_length(recs, bucket@, bucket@.len() as int);
                assert(dimension_fits(lists[b as int].len()));
                dimension_fits_smaller(
                    hashable(recs, bucket@, bucket@.len() as int).len(),
                    bucket@.len(),
                );
            }
            let mut found = cluster_positions(
                files,
                scores,
                bucket,
                min_similarity,
                min_cluster_size,
            );
            proof {
                part = clusters_of(found@);
                clustering_total(
                    part,
                    recs,
                    scores@,
                    bucket@,
                    min_similarity,
                    min_cluster_size,
                );
            }
            all_clusters.append(&mut found);
        }
        proof {
            let earlier = parts;
            parts = parts.push(part);
            let now = clusters_of(all_clusters@);
            assert(now =~= before + part);
            joined_prefix(earlier, parts, b as int);
            assert(joined(parts, b + 1) == joined(parts, b as int) + parts[b as int]);
            assert(now == joined(parts, b + 1));
            grand_total_concat(before, part, part.len() as int);
        }
        b = b + 1;
    }
    proof {
        assert(lists == crate::group::groups_of(labels));
        assert(lists.len() == heads(labels, labels.len() as int).len());
        assert(lists.len() == buckets@.len());
        groups_total_bounded(recs, labels, buckets@.len() as int);
    }
    let merged_clusters = merge_overlapping_clusters(all_clusters);
    proof {
        assert(is_batched(
            clusters_of(merged_clusters@),
            recs,
            scores@,
            min_similarity,
            min_cluster_size,
        )) by {
            assert(parts.len() == lists.len());
        }
    }
    Ok(merged_clusters)
}

/// Joining depends only on the parts joined.
pub proof fn joined_prefix(a: Seq<Seq<ClusterView>>, b: Seq<Seq<ClusterView>>, upto: int)
    requires
        0 <= upto <= a.len(),
        upto <= b.len(),
        forall|k: int| 0 <= k < upto ==> a[k] == b[k],
    ensures
        joined(a, upto) == joined(b, upto),
    decreases upto,
{
    if upto > 0 {
        joined_prefix(a, b, upto - 1);
    }
}

/// The limits under which `detect_clusters_batched` can work on `files`: the
/// sizes add up in 64 bits, and every distance matrix that is needed can
/// exist.
pub open spec fn within_limits(files: Seq<FileRecord>, batch_size: usize) -> bool {
    &&& total_size(files) <= u64::MAX
    &&& files.len() <= batch_size ==> dimension_fits(
        hashable(files, positions(files.len()), files.len() as int).len(),
    )
    &&& files.len() > batch_size ==> buckets_fit(files)
}

/// Whether a square matrix over `n` files can exist.
pub fn fits_dimension(n: usize) -> (fits: bool)
    ensures
        fits == dimension_fits(n as nat),
{
    let wide: u128 = n as u128;
    assert(wide * wide <= 0xFFFF_FFFF_FFFF_FFFF * 0xFFFF_FFFF_FFFF_FFFF) by (nonlinear_arith)
        requires
            wide <= 0xFFFF_FFFF_FFFF_FFFF,
    ;
    wide * wide <= isize::MAX as u128
}

/// Whether the sizes of `files` add up in 64 bits.
pub fn sizes_add_up(files: &[SimpleFileInfo]) -> (fits: bool)
    ensures
        fits == (total_size(records_of(files@)) <= u64::MAX),
{
    let ghost recs = records_of(files@);
    let mut total: u64 = 0;
    let mut i: usize = 0;
    while i < files.len()
        invariant
            i <= files.len(),
            recs == records_of(files@),
            total == total_size(recs.take(i as int)),
        decreases files.len() - i,
    {
        proof {
            assert(recs.take(i + 1) =~= recs.take(i as int).push(recs[i as int]));
            total_size_push(recs.take(i as int), recs[i as int]);
            crate::model::total_size_prefix(recs, i + 1);
        }
        if files[i].size_bytes > u64::MAX - total {
            return false;
        }
        total = total + files[i].size_bytes;
        i = i + 1;
    }
    proof {
        assert(recs.take(i as int) =~= recs);
    }
    true
}

/// The number of files that carry a hash.
fn count_hashable(files: &[SimpleFileInfo]) -> (count: usize)
    ensures
        count == hashable(records_of(files@), positions(files@.len()), files@.len() as int).len(),
{
    let ghost recs = records_of(files@);
    let ghost all = positions(files@.len());
    let mut count: usize = 0;
    let mut i: usize = 0;
    while i < files.len()
        invariant
            i <= files.len(),
            recs == records_of(files@),
            all == positions(files@.len()),
            count == hashable(recs, all, i as int).len(),
            count <= i,
        decreases files.len() - i,
    {
        if files[i].has_hash() {
            count = count + 1;
        }
        i = i + 1;
    }
    count
}

/// Finds the groups of similar files as `detect_clusters_batched` does,
/// after testing the limits under which it can work. Gives `None` where the
/// sizes of the files do not add up in 64 bits or a distance matrix that is
/// needed would have more cells than an array can have.
pub fn try_detect_clusters_batched(
    files: &[SimpleFileInfo],
    scores: &Vec<Vec<Option<u8>>>,
    min_similarity: u8,
    min_cluster_size: usize,
    batch_size: usize,
) -> (outcome: Option<Result<Vec<LargeFileCluster>, ClusteringError>>)
    ensures
        outcome is Some <==> within_limits(records_of(files@), batch_size),
        outcome is Some ==> is_batched_outcome(
            outcome->0,
            records_of(files@),
            scores@,
            min_similarity,
            min_cluster_size,
            batch_size,
        ),
{
    if !sizes_add_up(files) {
        return None;
    }
    if files.len() <= batch_size {
        if !fits_dimension(count_hashable(files)) {
            return None;
        }
    } else {
        let buckets = compute_lsh_buckets(files);
        let ghost lists = lsh_buckets(records_of(files@));
        let mut b: usize = 0;
        while b < buckets.len()
            invariant
                b <= buckets.len(),
                lists == lists_of(buckets@),
                lists == lsh_buckets(records_of(files@)),
                files@.len() > batch_size,
                forall|k: int| 0 <= k < b ==> dimension_fits((#[trigger] lists[k]).len()),
            decreases buckets.len() - b,
        {
            proof {
                assert(lists[b as int] == buckets@[b as int]@);
            }
            if !fits_dimension(buckets[b].len()) {
                proof {
                    assert(!dimension_fits(lsh_buckets(records_of(files@))[b as int].len()));
                }
                return None;
            }
            b = b + 1;
        }
    }
    Some(detect_clusters_batched(files, scores, min_similarity, min_cluster_size, batch_size))
}

/// `result` is what `detect_clusters_batched` gives for `files`: a refusal
/// that carries the threshold where that is outside 50..=100, whatever the
/// files are; otherwise the clustering of all files where they fit in one
/// batch, and the merged clusterings of the buckets where they do not.
pub open spec fn is_batched_outcome(
    result: Result<Vec<LargeFileCluster>, ClusteringError>,
    files: Seq<FileRecord>,
    scores: Seq<Vec<Option<u8>>>,
    min_similarity: u8,
    min_cluster_size: usize,
    batch_size: usize,
) -> bool {
    if !valid_similarity(min_similarity) {
        result == Err::<Vec<LargeFileCluster>, ClusteringError>(
            ClusteringError::InvalidSimilarity(min_similarity),
        )
    } else if files.len() <= batch_size {
        result is Ok && is_clustering(
            clusters_of(result->Ok_0@),
            files,
            scores,
            positions(files.len()),
            min_similarity,
            min_cluster_size,
        )
    } else {
        result is Ok && is_batched(
            clusters_of(result->Ok_0@),
            files,
            scores,
            min_similarity,
            min_cluster_size,
        )
    }
}

} // verus!
