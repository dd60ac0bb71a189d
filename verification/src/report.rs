//! One report of everything that takes space.

use crate::batch::{dimension_fits_smaller, hashable_length};
use crate::cluster::{ascending_below, clusters_of, LargeFileCluster};
use crate::clustering::{cluster_positions, hashable, is_clustering, valid_similarity};
use crate::consumers::{
    consumers_of, detect_hidden_consumers, listed_size, path_views, reports_consumers,
    HiddenConsumer, };
use crate::matrix::dimension_fits;
use crate::model::{records_of, sum_sizes, total_size, FileRecord, SimpleFileInfo};
use crate::outliers::{detect_large_file_outliers, outlier_marks, sizes_of, OutlierOptions};
use crate::patterns::{
    detect_pattern_groups, pattern_groups_of, reports_series, PatternGroup, };
use crate::rank::is_ranking;
use vstd::prelude::*;

verus! {

/// The size from which a file is clustered where the options name none: one
/// mebibyte.
pub const DEFAULT_CLUSTER_MIN_SIZE: u64 = 1048576;

/// Everything that was found to take space.
#[derive(Clone, Debug)]
pub struct OutlierReport {
    /// The positions of the files that are statistical outliers by size.
    pub large_files: Vec<usize>,
    pub hidden_consumers: Vec<HiddenConsumer>,
    pub pattern_groups: Vec<PatternGroup>,
    pub large_file_clusters: Vec<LargeFileCluster>,
    pub total_size_analyzed: u64,
    pub total_files_analyzed: usize,
}

/// The smallest size of a file that is clustered.
pub open spec fn cluster_min_size(options: OutlierOptions) -> u64 {
    match options.min_size {
        Some(min_size) => min_size,
        None => DEFAULT_CLUSTER_MIN_SIZE,
    }
}

/// The positions among the first `upto` files of those that carry a hash and
/// are at least `min_size` large.
pub open spec fn large_hashed(files: Seq<FileRecord>, min_size: u64, upto: int) -> Seq<usize>
    decreases upto,
{
    if upto <= 0 {
        Seq::empty()
    } else if files[upto - 1].fuzzy_hash is Some && files[upto - 1].size_bytes >= min_size {
        large_hashed(files, min_size, upto - 1).push((upto - 1) as usize)
    } else {
        large_hashed(files, min_size, upto - 1)
    }
}

/// The files that are clustered are listed in ascending order.
pub proof fn large_hashed_ascending(files: Seq<FileRecord>, min_size: u64, upto: int)
    requires
        0 <= upto <= files.len(),
        upto <= usize::MAX,
    ensures
        ascending_below(large_hashed(files, min_size, upto), upto),
    decreases upto,
{
    if upto > 0 {
        large_hashed_ascending(files, min_size, upto - 1);
    }
}

/// Clustering is asked for and its threshold is one that clustering accepts.
pub open spec fn clusters_wanted(options: OutlierOptions) -> bool {
    options.enable_clustering && valid_similarity(options.cluster_similarity_threshold)
}

/// `report` is the report on `files`, listed as `paths`, under `options`.
///
/// * With nothing listed, the report is empty.
/// * The totals count every file on record.
/// * The large files are the outliers by size, largest first, cut to
///   `top_n`.
/// * The hidden consumers and the pattern groups are reported where the
///   options ask for them.
/// * The clusters are those of the files that carry a hash and are at least
///   as large as the options ask, where clustering is asked for with a
///   threshold that it accepts.
pub open spec fn is_report(
    report: OutlierReport,
    paths: Seq<Seq<char>>,
    files: Seq<FileRecord>,
    above_threshold: Seq<bool>,
    scores: Seq<Vec<Option<u8>>>,
    options: OutlierOptions,
) -> bool {
    if paths.len() == 0 {
        &&& report.large_files@.len() == 0
        &&& report.hidden_consumers@.len() == 0
        &&& report.pattern_groups@.len() == 0
        &&& report.large_file_clusters@.len() == 0
        &&& report.total_size_analyzed == 0
        &&& report.total_files_analyzed == 0
    } else {
        &&& report.total_size_analyzed == total_size(files)
        &&& report.total_files_analyzed == files.len()
        &&& is_ranking(
            report.large_files@,
            sizes_of(files),
            outlier_marks(files, above_threshold, options.min_size),
            options.top_n,
        )
        &&& if options.check_hidden_consumers {
            reports_consumers(consumers_of(report.hidden_consumers@), paths, files)
        } else {
            report.hidden_consumers@.len() == 0
        }
        &&& if options.check_patterns {
            reports_series(pattern_groups_of(report.pattern_groups@), files)
        } else {
            report.pattern_groups@.len() == 0
        }
        &&& if clusters_wanted(options) {
            is_clustering(
                clusters_of(report.large_file_clusters@),
                files,
                scores,
                large_hashed(files, cluster_min_size(options), files.len() as int),
                options.cluster_similarity_threshold,
                options.min_cluster_size,
            )
        } else {
            report.large_file_clusters@.len() == 0
        }
    }
}

/// The positions of the files that carry a hash and are at least `min_size`
/// large.
fn select_large_hashed(files: &[SimpleFileInfo], min_size: u64) -> (picked: Vec<usize>)
    ensures
        picked@ == large_hashed(records_of(files@), min_size, files@.len() as int),
{
    let mut picked: Vec<usize> = Vec::new();
    let mut i: usize = 0;
    while i < files.len()
        invariant
            i <= files.len(),
            picked@ == large_hashed(records_of(files@), min_size, i as int),
        decreases files.len() - i,
    {
        if files[i].has_hash() && files[i].size_bytes >= min_size {
            picked.push(i);
        }
        i = i + 1;
    }
    picked
}

/// Reports what takes space among `files`.
///
/// `paths` lists the files that were found, `files` holds a record of each
/// file whose size could be read, `above_threshold[p]` says whether the size
/// of file `p` lies more than the threshold number of standard deviations
/// above the mean size, and `scores[i][j]`, for `i < j`, holds the outcome of
/// comparing the fuzzy hashes of files `i` and `j`.
pub fn detect_outliers(
    paths: &[String],
    files: &[SimpleFileInfo],
    above_threshold: &Vec<bool>,
    scores: &Vec<Vec<Option<u8>>>,
    options: &OutlierOptions,
) -> (report: OutlierReport)
    requires
        paths@.len() > 0 ==> total_size(records_of(files@)) <= u64::MAX,
        paths@.len() > 0 && options.check_hidden_consumers ==> listed_size(
            path_views(paths@),
            records_of(files@),
            paths@.len() as int,
        ) <= u64::MAX,
        paths@.len() > 0 && clusters_wanted(*options) ==> dimension_fits(
            large_hashed(
                records_of(files@),
                cluster_min_size(*options),
                files@.len() as int,
            ).len(),
        ),
    ensures
        is_report(
            report,
            path_views(paths@),
            records_of(files@),
            above_threshold@,
            scores@,
            *options,
        ),
{
    if paths.len() == 0 {
        return OutlierReport {
            large_files: Vec::new(),
            hidden_consumers: Vec::new(),
            pattern_groups: Vec::new(),
            large_file_clusters: Vec::new(),
            total_size_analyzed: 0,
            total_files_analyzed: 0,
        };
    }
    let ghost recs = records_of(files@);
    let total_size_analyzed = sum_sizes(files);
    let total_files_analyzed = files.len();
    let large_files = detect_large_file_outliers(files, above_threshold, options);
    let hidden_consumers = if options.check_hidden_consumers {
        detect_hidden_consumers(paths, files)
    } else {
        Vec::new()
    };
    let pattern_groups = if options.check_patterns {
        detect_pattern_groups(files)
    } else {
        Vec::new()
    };
    let similarity = options.cluster_similarity_threshold;
    let large_file_clusters = if options.enable_clustering && 50 <= similarity && similarity
        <= 100 {
        let min_size = match options.min_size {
            Some(min_size) => min_size,
            None => DEFAULT_CLUSTER_MIN_SIZE,
        };
        let picked = select_large_hashed(files, min_size);
        proof {
            large_hashed_ascending(recs, min_size, files@.len() as int);
            hashable_length(recs, picked@, picked@.len() as int);
            dimension_fits_smaller(
                hashable(recs, picked@, picked@.len() as int).len(),
                picked@.len(),
            );
        }
        cluster_positions(files, scores, &picked, similarity, options.min_cluster_size)
    } else {
        Vec::new()
    };
    OutlierReport {
        large_files,
        hidden_consumers,
        pattern_groups,
        large_file_clusters,
        total_size_analyzed,
        total_files_analyzed,
    }
}

} // verus!
