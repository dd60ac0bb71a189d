//! Detection of files that take a disproportionate share of the space.

use crate::model::{records_of, FileRecord, SimpleFileInfo};
use crate::rank::{is_ranking, rank_largest};
use vstd::prelude::*;

verus! {

/// Options for outlier detection.
#[derive(Clone, Copy, Debug, PartialEq, Eq, Structural)]
pub struct OutlierOptions {
    /// Minimum file size to consider, in bytes.
    pub min_size: Option<u64>,
    /// Maximum number of large files to report.
    pub top_n: Option<usize>,
    /// Number of standard deviations above the mean from which a size is an
    /// outlier, in thousandths.
    pub std_dev_threshold_thousandths: u32,
    /// Look for known space-wasting directories.
    pub check_hidden_consumers: bool,
    /// Include empty directories in results.
    pub include_empty_dirs: bool,
    /// Look for series of files with numbered or dated names.
    pub check_patterns: bool,
    /// Cluster similar large files.
    pub enable_clustering: bool,
    /// Minimum similarity for clustering, 50 to 100.
    pub cluster_similarity_threshold: u8,
    /// Minimum number of files that form a cluster.
    pub min_cluster_size: usize,
}

impl Default for OutlierOptions {
    /// The twenty largest outliers of any size from two standard deviations
    /// on, with the checks for known directories and for name patterns on
    /// and clustering off.
    fn default() -> (options: OutlierOptions)
        ensures
            options == (OutlierOptions {
                min_size: None,
                top_n: Some(20usize),
                std_dev_threshold_thousandths: 2000,
                check_hidden_consumers: true,
                include_empty_dirs: false,
                check_patterns: true,
                enable_clustering: false,
                cluster_similarity_threshold: 70,
                min_cluster_size: 2,
            }),
    {
        OutlierOptions {
            min_size: None,
            top_n: Some(20),
            std_dev_threshold_thousandths: 2000,
            check_hidden_consumers: true,
            include_empty_dirs: false,
            check_patterns: true,
            enable_clustering: false,
            cluster_similarity_threshold: 70,
            min_cluster_size: 2,
        }
    }
}

/// The sizes of `files`, in order.
pub open spec fn sizes_of(files: Seq<FileRecord>) -> Seq<u64> {
    Seq::new(files.len(), |p: int| files[p].size_bytes)
}

/// File `p` is a large-file outlier: it is not smaller than `min_size`, where
/// one is given, and `above_threshold` marks its size as lying more than the
/// threshold number of standard deviations above the mean. A file that
/// `above_threshold` does not cover is not marked.
pub open spec fn is_outlier(
    files: Seq<FileRecord>,
    above_threshold: Seq<bool>,
    min_size: Option<u64>,
    p: int,
) -> bool {
    &&& 0 <= p < files.len()
    &&& p < above_threshold.len()
    &&& above_threshold[p]
    &&& (min_size is Some ==> files[p].size_bytes >= min_size->0)
}

/// For each file, whether it is a large-file outlier.
pub open spec fn outlier_marks(
    files: Seq<FileRecord>,
    above_threshold: Seq<bool>,
    min_size: Option<u64>,
) -> Seq<bool> {
    Seq::new(files.len(), |p: int| is_outlier(files, above_threshold, min_size, p))
}

/// The positions of the large-file outliers among `files`, the largest
/// first and files of the same size in the order given, cut to the
/// first `top_n` where that is given.
///
/// `above_threshold[p]` says whether the size of file `p` lies more than the
/// threshold number of standard deviations above the mean size.
pub fn detect_large_file_outliers(
    files: &[SimpleFileInfo],
    above_threshold: &Vec<bool>,
    options: &OutlierOptions,
) -> (outliers: Vec<usize>)
    ensures
        is_ranking(
            outliers@,
            sizes_of(records_of(files@)),
            outlier_marks(records_of(files@), above_threshold@, options.min_size),
            options.top_n,
        ),
{
    let ghost recs = records_of(files@);
    let mut sizes: Vec<u64> = Vec::new();
    let mut marks: Vec<bool> = Vec::new();
    let mut p: usize = 0;
    while p < files.len()
        invariant
            p <= files.len(),
            recs == records_of(files@),
            sizes@.len() == p,
            marks@.len() == p,
            forall|q: int| 0 <= q < p ==> #[trigger] sizes@[q] == recs[q].size_bytes,
            forall|q: int|
                0 <= q < p ==> #[trigger] marks@[q] == is_outlier(
                    recs,
                    above_threshold@,
                    options.min_size,
                    q,
                ),
        decreases files.len() - p,
    {
        let size = files[p].size_bytes;
        let large_enough = match options.min_size {
            Some(min_size) => size >= min_size,
            None => true,
        };
        let marked = p < above_threshold.len() && above_threshold[p];
        sizes.push(size);
        marks.push(marked && large_enough);
        p = p + 1;
    }
    proof {
        assert(sizes@ =~= sizes_of(recs));
        assert(marks@ =~= outlier_marks(recs, above_threshold@, options.min_size));
    }
    rank_largest(&sizes, &marks, options.top_n)
}

} // verus!
