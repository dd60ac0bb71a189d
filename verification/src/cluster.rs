//! Clusters of similar files and their statistics.

use crate::matrix::DistanceMatrix;
use crate::group::{collect_members, is_first_with_label};
use crate::model::{
    records_of, sum_sizes, total_size, total_size_prefix, FileRecord, SimpleFileInfo,
};
use vstd::prelude::*;

verus! {

/// Why a clustering request was refused.
#[derive(Debug)]
pub enum ClusteringError {
    /// Fewer files qualify than a cluster needs: how many there are, and how
    /// many are needed.
    InsufficientFiles(usize, usize),
    /// The similarity threshold is outside 50..=100.
    InvalidSimilarity(u8),
    /// Clustering failed.
    DbscanError(String),
    /// A similarity comparison could not be evaluated.
    HashError(String),
}

/// Result type for clustering operations.
pub type ClusteringResult<T> = Result<T, ClusteringError>;

/// A fraction `num / den` with a positive denominator.
#[derive(Clone, Copy, Debug, PartialEq, Eq, Structural)]
pub struct Ratio {
    pub num: i128,
    pub den: u64,
}

/// The mathematical value of a fraction.
pub struct RatioView {
    pub num: int,
    pub den: int,
}

impl View for Ratio {
    type V = RatioView;

    open spec fn view(&self) -> RatioView {
        RatioView { num: self.num as int, den: self.den as int }
    }
}

/// A group of files whose content is similar.
#[derive(Clone, Debug)]
pub struct LargeFileCluster {
    pub cluster_id: usize,
    pub files: Vec<SimpleFileInfo>,
    pub total_size: u64,
    /// Mean similarity over all pairs of members.
    pub avg_similarity: Ratio,
    /// Share of the pairs of members that are closer than distance 30.
    pub density: Ratio,
}

/// The mathematical value of a cluster.
pub struct ClusterView {
    pub cluster_id: usize,
    pub files: Seq<FileRecord>,
    pub total_size: nat,
    pub avg_similarity: RatioView,
    pub density: RatioView,
}

impl View for LargeFileCluster {
    type V = ClusterView;

    open spec fn view(&self) -> ClusterView {
        ClusterView {
            cluster_id: self.cluster_id,
            files: records_of(self.files@),
            total_size: self.total_size as nat,
            avg_similarity: self.avg_similarity@,
            density: self.density@,
        }
    }
}

/// The values of a list of clusters, in order.
pub open spec fn clusters_of(clusters: Seq<LargeFileCluster>) -> Seq<ClusterView> {
    clusters.map_values(|c: LargeFileCluster| c@)
}

/// The positions in `idx` are below `n`.
pub open spec fn all_below(idx: Seq<usize>, n: int) -> bool {
    forall|a: int| 0 <= a < idx.len() ==> (#[trigger] idx[a]) < n
}

/// The most members for which the statistics of a cluster are computed: the
/// number of their pairs must fit in 64 bits.
pub const MAX_MEMBERS: usize = 0xFFFF_FFFF;

/// The distance between every two of the members `idx` lies in 0..=100.
pub open spec fn distances_in_range(m: Seq<Seq<i32>>, idx: Seq<usize>) -> bool {
    forall|a: int, b: int|
        0 <= a < idx.len() && 0 <= b < idx.len() ==> 0 <= #[trigger] m[idx[a] as int][idx[b] as int]
            <= 100
}

/// The positions in `idx` are ascending and below `n`.
pub open spec fn ascending_below(idx: Seq<usize>, n: int) -> bool {
    &&& forall|a: int| 0 <= a < idx.len() ==> (#[trigger] idx[a]) < n
    &&& forall|a: int, b: int| 0 <= a < b < idx.len() ==> (#[trigger] idx[a]) < (#[trigger] idx[b])
}

/// The records at the positions `idx`, in that order.
pub open spec fn pick(files: Seq<FileRecord>, idx: Seq<usize>) -> Seq<FileRecord> {
    Seq::new(idx.len(), |k: int| files[idx[k] as int])
}

/// The number of unordered pairs among `n` items.
pub open spec fn pair_count(n: nat) -> nat {
    (n * (n - 1) / 2) as nat
}

/// The sum of the similarities `100 - distance` between member `i` and the
/// members at positions `i + 1 .. upto`.
pub open spec fn row_similarity(m: Seq<Seq<i32>>, idx: Seq<usize>, i: int, upto: int) -> int
    decreases upto - i,
{
    if upto <= i + 1 {
        0
    } else {
        row_similarity(m, idx, i, upto - 1) + (100 - m[idx[i] as int][idx[upto - 1] as int])
    }
}

/// The sum of the similarities over all pairs whose first member is at a
/// position below `upto`.
pub open spec fn pairwise_similarity(m: Seq<Seq<i32>>, idx: Seq<usize>, upto: int) -> int
    decreases upto,
{
    if upto <= 0 {
        0
    } else {
        pairwise_similarity(m, idx, upto - 1) + row_similarity(
            m,
            idx,
            upto - 1,
            idx.len() as int,
        )
    }
}

/// The number of members at positions `i + 1 .. upto` that are closer to
/// member `i` than distance 30.
pub open spec fn row_close(m: Seq<Seq<i32>>, idx: Seq<usize>, i: int, upto: int) -> int
    decreases upto - i,
{
    if upto <= i + 1 {
        0
    } else {
        row_close(m, idx, i, upto - 1) + (if m[idx[i] as int][idx[upto - 1] as int] < 30 {
            1int
        } else {
            0int
        })
    }
}

/// The number of pairs closer than distance 30 whose first member is at a
/// position below `upto`.
pub open spec fn close_pairs(m: Seq<Seq<i32>>, idx: Seq<usize>, upto: int) -> int
    decreases upto,
{
    if upto <= 0 {
        0
    } else {
        close_pairs(m, idx, upto - 1) + row_close(m, idx, upto - 1, idx.len() as int)
    }
}

/// The mean pairwise similarity of the members `idx`, as the sum of the
/// similarities `100 - distance` of all pairs over the number of pairs: 100
/// for fewer than two members.
pub open spec fn avg_similarity_of(m: Seq<Seq<i32>>, idx: Seq<usize>) -> RatioView {
    if idx.len() <= 1 {
        RatioView { num: 100, den: 1 }
    } else {
        RatioView {
            num: pairwise_similarity(m, idx, idx.len() as int),
            den: pair_count(idx.len()) as int,
        }
    }
}

/// The share of pairs of the members `idx` that are closer than distance 30,
/// as their number over the number of all pairs: 1 for fewer than two
/// members.
pub open spec fn density_of(m: Seq<Seq<i32>>, idx: Seq<usize>) -> RatioView {
    if idx.len() <= 1 {
        RatioView { num: 1, den: 1 }
    } else {
        RatioView { num: close_pairs(m, idx, idx.len() as int), den: pair_count(idx.len()) as int }
    }
}

/// The cluster with id `id` whose members are the files at `idx`.
pub open spec fn cluster_of(
    id: usize,
    idx: Seq<usize>,
    files: Seq<FileRecord>,
    m: Seq<Seq<i32>>,
) -> ClusterView {
    ClusterView {
        cluster_id: id,
        files: pick(files, idx),
        total_size: total_size(pick(files, idx)),
        avg_similarity: avg_similarity_of(m, idx),
        density: density_of(m, idx),
    }
}

/// The number of pairs among `len` members whose first member is at a
/// position below `upto`.
pub open spec fn pairs_before(len: int, upto: int) -> int
    decreases upto,
{
    if upto <= 0 {
        0
    } else {
        pairs_before(len, upto - 1) + (len - upto)
    }
}

/// The pairs counted row by row are all pairs.
pub proof fn pairs_before_closed(len: int, upto: int)
    requires
        0 <= upto <= len,
    ensures
        2 * pairs_before(len, upto) == upto * (2 * len - upto - 1),
        upto == len ==> pairs_before(len, upto) == pair_count(len as nat),
    decreases upto,
{
    if upto > 0 {
        pairs_before_closed(len, upto - 1);
        assert(2 * pairs_before(len, upto) == upto * (2 * len - upto - 1)) by (nonlinear_arith)
            requires
                2 * pairs_before(len, upto - 1) == (upto - 1) * (2 * len - (upto - 1) - 1),
                pairs_before(len, upto) == pairs_before(len, upto - 1) + (len - upto),
        ;
    }
    if upto == len {
        assert(len * (2 * len - len - 1) == len * (len - 1)) by (nonlinear_arith);
    }
}

/// A row holds no more close pairs than it has pairs, and similarities of
/// distances in 0..=100 add up to between 0 and 100 for each pair.
pub proof fn row_bounds(m: Seq<Seq<i32>>, idx: Seq<usize>, i: int, upto: int)
    requires
        0 <= i < idx.len(),
        i + 1 <= upto <= idx.len(),
    ensures
        0 <= row_close(m, idx, i, upto) <= upto - i - 1,
        distances_in_range(m, idx) ==> 0 <= row_similarity(m, idx, i, upto) <= 100 * (upto - i
            - 1),
    decreases upto - i,
{
    if upto > i + 1 {
        row_bounds(m, idx, i, upto - 1);
        if distances_in_range(m, idx) {
            assert(0 <= m[idx[i] as int][idx[upto - 1] as int] <= 100);
        }
    }
}

/// There are no more close pairs than pairs, and similarities of distances
/// in 0..=100 add up to between 0 and 100 for each pair.
pub proof fn pair_bounds(m: Seq<Seq<i32>>, idx: Seq<usize>, upto: int)
    requires
        0 <= upto <= idx.len(),
    ensures
        0 <= close_pairs(m, idx, upto) <= pairs_before(idx.len() as int, upto),
        distances_in_range(m, idx) ==> 0 <= pairwise_similarity(m, idx, upto) <= 100
            * pairs_before(idx.len() as int, upto),
    decreases upto,
{
    if upto > 0 {
        pair_bounds(m, idx, upto - 1);
        row_bounds(m, idx, upto - 1, idx.len() as int);
    }
}

/// The mean similarity of distances in 0..=100 lies in 0..=100, and the share
/// of close pairs lies in 0..=1.
pub proof fn statistics_in_range(m: Seq<Seq<i32>>, idx: Seq<usize>)
    ensures
        avg_similarity_of(m, idx).den > 0,
        density_of(m, idx).den > 0,
        0 <= density_of(m, idx).num <= density_of(m, idx).den,
        distances_in_range(m, idx) ==> 0 <= avg_similarity_of(m, idx).num <= 100
            * avg_similarity_of(m, idx).den,
{
    let len = idx.len() as int;
    if len >= 2 {
        pair_bounds(m, idx, len);
        pairs_before_closed(len, len);
        assert(len * (len - 1) >= 2) by (nonlinear_arith)
            requires
                len >= 2,
        ;
    }
}

/// Ascending positions below `n` are at most `n` many.
pub proof fn ascending_len(idx: Seq<usize>, n: int)
    requires
        ascending_below(idx, n),
        0 <= n,
    ensures
        idx.len() <= n,
    decreases idx.len(),
{
    if idx.len() > 0 {
        let last = idx.last() as int;
        assert(ascending_below(idx.drop_last(), last)) by {
            assert forall|a: int| 0 <= a < idx.drop_last().len() implies (
            #[trigger] idx.drop_last()[a]) < last by {
                assert(idx[a] < idx[idx.len() - 1]);
            }
        }
        ascending_len(idx.drop_last(), last);
    }
}

/// The sizes of files picked at ascending positions sum to no more than the
/// sizes of all files.
pub proof fn picked_total_bounded(files: Seq<FileRecord>, idx: Seq<usize>, bound: int)
    requires
        ascending_below(idx, bound),
        0 <= bound <= files.len(),
    ensures
        total_size(pick(files, idx)) <= total_size(files.take(bound)),
        total_size(pick(files, idx)) <= total_size(files),
    decreases idx.len(),
{
    total_size_prefix(files, bound);
    if idx.len() > 0 {
        let last = idx.last() as int;
        let rest = idx.drop_last();
        assert(ascending_below(rest, last)) by {
            assert forall|a: int| 0 <= a < rest.len() implies (#[trigger] rest[a]) < last by {
                assert(idx[a] < idx[idx.len() - 1]);
            }
        }
        picked_total_bounded(files, rest, last);
        assert(pick(files, idx).drop_last() =~= pick(files, rest));
        assert(files.take(last + 1).drop_last() =~= files.take(last));
        total_size_prefix(files.take(bound), last + 1);
        assert(files.take(bound).take(last + 1) =~= files.take(last + 1));
    }
}

/// The files labelled `c` among the first `upto`, in ascending order.
pub open spec fn members_of(labels: Seq<Option<usize>>, c: usize, upto: int) -> Seq<usize>
    decreases upto,
{
    if upto <= 0 {
        Seq::empty()
    } else if labels[upto - 1] == Some(c) {
        members_of(labels, c, upto - 1).push((upto - 1) as usize)
    } else {
        members_of(labels, c, upto - 1)
    }
}

/// File `i` is the first file of its cluster.
pub open spec fn is_head(labels: Seq<Option<usize>>, i: int) -> bool {
    &&& labels[i] is Some
    &&& forall|j: int| 0 <= j < i ==> #[trigger] labels[j] != labels[i]
}

/// The first file of each cluster among the first `upto` files, in ascending
/// order.
pub open spec fn heads(labels: Seq<Option<usize>>, upto: int) -> Seq<usize>
    decreases upto,
{
    if upto <= 0 {
        Seq::empty()
    } else if is_head(labels, upto - 1) {
        heads(labels, upto - 1).push((upto - 1) as usize)
    } else {
        heads(labels, upto - 1)
    }
}

/// The clusters whose first file is among the first `upto` files, each with
/// all of its members, in the order of their first files.
pub open spec fn aggregate_upto(
    files: Seq<FileRecord>,
    labels: Seq<Option<usize>>,
    m: Seq<Seq<i32>>,
    upto: int,
) -> Seq<ClusterView> {
    let h = heads(labels, upto);
    Seq::new(
        h.len(),
        |k: int|
            cluster_of(
                labels[h[k] as int]->0,
                members_of(labels, labels[h[k] as int]->0, labels.len() as int),
                files,
                m,
            ),
    )
}

/// The clusters that `labels` describes: one for each cluster id that occurs,
/// ordered by the position of the cluster's first file.
pub open spec fn aggregate_of(
    files: Seq<FileRecord>,
    labels: Seq<Option<usize>>,
    m: Seq<Seq<i32>>,
) -> Seq<ClusterView> {
    aggregate_upto(files, labels, m, labels.len() as int)
}

/// The members of a cluster are exactly the files with its label, each once
/// and in ascending order.
pub proof fn members_of_properties(labels: Seq<Option<usize>>, c: usize, upto: int)
    requires
        0 <= upto <= labels.len(),
        upto <= usize::MAX,
    ensures
        ascending_below(members_of(labels, c, upto), upto),
        forall|t: int|
            0 <= t < members_of(labels, c, upto).len() ==> labels[(#[trigger] members_of(
                labels,
                c,
                upto,
            )[t]) as int] == Some(c),
        forall|j: int|
            0 <= j < upto && #[trigger] labels[j] == Some(c) ==> members_of(
                labels,
                c,
                upto,
            ).contains(j as usize),
    decreases upto,
{
    if upto > 0 {
        members_of_properties(labels, c, upto - 1);
        let prev = members_of(labels, c, upto - 1);
        let cur = members_of(labels, c, upto);
        assert forall|j: int| 0 <= j < upto && #[trigger] labels[j] == Some(c) implies cur.contains(
            j as usize,
        ) by {
            if j < upto - 1 {
                let t = choose|t: int| 0 <= t < prev.len() && prev[t] == j as usize;
                assert(cur[t] == j as usize);
            } else {
                assert(cur[cur.len() - 1] == j as usize);
            }
        }
    }
}

/// The sum of pairwise similarities and the number of close pairs among the
/// members `indices`.
fn pair_sums(indices: &Vec<usize>, distances: &DistanceMatrix) -> (sums: (i128, i128))
    requires
        distances.wf(),
        all_below(indices@, distances.spec_dim() as int),
        indices@.len() <= MAX_MEMBERS,
    ensures
        sums.0 == pairwise_similarity(distances@, indices@, indices@.len() as int),
        sums.1 == close_pairs(distances@, indices@, indices@.len() as int),
{
    let len = indices.len();
    let ghost m = distances@;
    let ghost idx = indices@;
    let mut total: i128 = 0;
    let mut close: i128 = 0;
    let mut i: usize = 0;
    while i < len
        invariant
            distances.wf(),
            all_below(idx, distances.spec_dim() as int),
            m == distances@,
            idx == indices@,
            len == idx.len(),
            len < 0x1_0000_0000,
            i <= len,
            total == pairwise_similarity(m, idx, i as int),
            close == close_pairs(m, idx, i as int),
            -(i * 0x1_0000_0000_0000_0000) <= total <= i * 0x1_0000_0000_0000_0000,
            0 <= close <= i * 0x1_0000_0000,
        decreases len - i,
    {
        let mut row: i128 = 0;
        let mut row_near: i128 = 0;
        let mut j: usize = i + 1;
        while j < len
            invariant
                distances.wf(),
                all_below(idx, distances.spec_dim() as int),
                m == distances@,
                idx == indices@,
                len == idx.len(),
                len < 0x1_0000_0000,
                i < len,
                i + 1 <= j <= len,
                row == row_similarity(m, idx, i as int, j as int),
                row_near == row_close(m, idx, i as int, j as int),
                -(j * 0x1_0000_0000) <= row <= j * 0x1_0000_0000,
                0 <= row_near <= j,
            decreases len - j,
        {
            let d = distances.get(indices[i], indices[j]);
            row = row + (100 - d as i128);
            if d < 30 {
                row_near = row_near + 1;
            }
            j = j + 1;
        }
        total = total + row;
        close = close + row_near;
        i = i + 1;
    }
    (total, close)
}

/// The number of unordered pairs among `len` members.
fn count_pairs(len: usize) -> (pairs: u64)
    requires
        len < 0x1_0000_0000,
    ensures
        pairs == pair_count(len as nat),
        len >= 2 ==> pairs > 0,
{
    if len == 0 {
        return 0;
    }
    let a: u64 = len as u64;
    let b: u64 = (len - 1) as u64;
    assert(a * b <= 0xFFFF_FFFF * 0xFFFF_FFFF) by (nonlinear_arith)
        requires
            a <= 0xFFFF_FFFF,
            b <= 0xFFFF_FFFF,
    ;
    assert(len >= 2 ==> a * b >= 2) by (nonlinear_arith)
        requires
            a == len,
            b == len - 1,
    ;
    a * b / 2
}

/// The mean similarity `100 - distance` over all pairs of the members
/// `indices`, as the sum over the pairs and their number; 100 where there
/// are fewer than two members. For distances in 0..=100 the mean lies in
/// 0..=100.
pub fn calculate_avg_similarity(indices: &Vec<usize>, distances: &DistanceMatrix) -> (avg: Ratio)
    requires
        distances.wf(),
        all_below(indices@, distances.spec_dim() as int),
        indices@.len() <= MAX_MEMBERS,
    ensures
        avg@ == avg_similarity_of(distances@, indices@),
        avg.den > 0,
        distances_in_range(distances@, indices@) ==> 0 <= avg.num <= 100 * avg.den,
{
    proof {
        statistics_in_range(distances@, indices@);
    }
    if indices.len() <= 1 {
        return Ratio { num: 100, den: 1 };
    }
    let sums = pair_sums(indices, distances);
    Ratio { num: sums.0, den: count_pairs(indices.len()) }
}

/// The share of the pairs of the members `indices` that are closer than
/// distance 30, as their number and the number of all pairs; 1 where there
/// are fewer than two members. The share lies in 0..=1.
pub fn calculate_density(indices: &Vec<usize>, distances: &DistanceMatrix) -> (density: Ratio)
    requires
        distances.wf(),
        all_below(indices@, distances.spec_dim() as int),
        indices@.len() <= MAX_MEMBERS,
    ensures
        density@ == density_of(distances@, indices@),
        density.den > 0,
        0 <= density.num <= density.den,
{
    proof {
        statistics_in_range(distances@, indices@);
    }
    if indices.len() <= 1 {
        return Ratio { num: 1, den: 1 };
    }
    let sums = pair_sums(indices, distances);
    Ratio { num: sums.1, den: count_pairs(indices.len()) }
}

/// Builds the cluster `cluster_id` from its members: copies of their records,
/// the sum of their sizes, and the similarity statistics of their pairs.
pub fn build_cluster_info(
    cluster_id: usize,
    indices: &Vec<usize>,
    files: &[SimpleFileInfo],
    distances: &DistanceMatrix,
) -> (cluster: LargeFileCluster)
    requires
        distances.wf(),
        files@.len() == distances.spec_dim(),
        ascending_below(indices@, files@.len() as int),
        total_size(records_of(files@)) <= u64::MAX,
    ensures
        cluster@ == cluster_of(cluster_id, indices@, records_of(files@), distances@),
{
    let ghost recs = records_of(files@);
    let mut cluster_files: Vec<SimpleFileInfo> = Vec::new();
    let mut k: usize = 0;
    while k < indices.len()
        invariant
            k <= indices.len(),
            ascending_below(indices@, files@.len() as int),
            recs == records_of(files@),
            cluster_files@.len() == k,
            records_of(cluster_files@) =~= pick(recs, indices@.take(k as int)),
        decreases indices.len() - k,
    {
        let copy = files[indices[k]].duplicate();
        let ghost earlier = cluster_files@;
        cluster_files.push(copy);
        proof {
            let now = records_of(cluster_files@);
            let want = pick(recs, indices@.take(k + 1));
            assert(now.len() == k + 1);
            assert(want.len() == k + 1);
            assert forall|t: int| 0 <= t < now.len() implies now[t] == want[t] by {
                if t < k {
                    assert(records_of(earlier)[t] == pick(recs, indices@.take(k as int))[t]);
                    assert(now[t] == cluster_files@[t]@);
                    assert(cluster_files@[t] == earlier[t]);
                    assert(want[t] == recs[indices@[t] as int]);
                } else {
                    assert(now[t] == cluster_files@[t]@);
                    assert(cluster_files@[t] == copy);
                    assert(want[t] == recs[indices@[k as int] as int]);
                    assert(recs[indices@[k as int] as int] == files@[indices@[k as int] as int]@);
                }
            }
        }
        k = k + 1;
    }
    proof {
        assert(indices@.take(k as int) =~= indices@);
        picked_total_bounded(recs, indices@, files@.len() as int);
        ascending_len(indices@, files@.len() as int);
        let n = distances.spec_dim() as int;
        assert(n * n <= isize::MAX ==> n < 0x1_0000_0000) by (nonlinear_arith);
    }
    let total = sum_sizes(cluster_files.as_slice());
    let avg_similarity = calculate_avg_similarity(indices, distances);
    let density = calculate_density(indices, distances);
    LargeFileCluster {
        cluster_id,
        files: cluster_files,
        total_size: total,
        avg_similarity,
        density,
    }
}

/// Groups the files by their cluster label, leaving out the unlabelled ones,
/// and computes each cluster's statistics. The clusters come in the order of
/// their first files; within a cluster the files keep their order.
pub fn aggregate_clusters(
    files: &[SimpleFileInfo],
    cluster_labels: Vec<Option<usize>>,
    distances: &DistanceMatrix,
) -> (clusters: Vec<LargeFileCluster>)
    requires
        distances.wf(),
        files@.len() == distances.spec_dim(),
        cluster_labels@.len() == files@.len(),
        total_size(records_of(files@)) <= u64::MAX,
    ensures
        clusters_of(clusters@) == aggregate_of(records_of(files@), cluster_labels@, distances@),
{
    let n = cluster_labels.len();
    let ghost recs = records_of(files@);
    let ghost labels = cluster_labels@;
    let ghost m = distances@;
    let mut clusters: Vec<LargeFileCluster> = Vec::new();
    let mut i: usize = 0;
    while i < n
        invariant
            i <= n,
            n == labels.len(),
            labels == cluster_labels@,
            recs == records_of(files@),
            m == distances@,
            distances.wf(),
            files@.len() == distances.spec_dim(),
            labels.len() == files@.len(),
            total_size(recs) <= u64::MAX,
            clusters@.len() == heads(labels, i as int).len(),
            clusters_of(clusters@) =~= aggregate_upto(recs, labels, m, i as int),
        decreases n - i,
    {
        let ghost earlier = clusters@;
        match cluster_labels[i] {
            Some(c) => {
                if is_first_with_label(&cluster_labels, i, c) {
                    let members = collect_members(&cluster_labels, c);
                    proof {
                        members_of_properties(labels, c, n as int);
                    }
                    let cluster = build_cluster_info(c, &members, files, distances);
                    clusters.push(cluster);
                }
            },
            None => {},
        }
        proof {
            let now = clusters_of(clusters@);
            let want = aggregate_upto(recs, labels, m, i + 1);
            assert(now.len() == want.len());
            assert forall|t: int| 0 <= t < now.len() implies now[t] == want[t] by {
                if t < earlier.len() {
                    assert(clusters_of(earlier)[t] == aggregate_upto(recs, labels, m, i as int)[t]);
                }
            }
        }
        i = i + 1;
    }
    clusters
}

/// Aggregating the same labels over the same files and matrix always gives
/// the same clusters with the same statistics.
pub proof fn aggregation_is_repeatable(
    first: Seq<ClusterView>,
    second: Seq<ClusterView>,
    files: Seq<FileRecord>,
    labels: Seq<Option<usize>>,
    m: Seq<Seq<i32>>,
)
    requires
        first == aggregate_of(files, labels, m),
        second == aggregate_of(files, labels, m),
    ensures
        first == second,
{
}

} // verus!
