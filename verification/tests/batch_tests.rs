use rclean::batch::{
    detect_clusters_batched, fits_dimension, sizes_add_up, try_detect_clusters_batched,
};
use rclean::cluster::{ClusteringError, LargeFileCluster, Ratio};
use rclean::clustering::detect_large_file_clusters;
use rclean::dbscan::simple_dbscan;
use rclean::lsh::{compute_lsh_buckets, hash_key};
use rclean::matrix::DistanceMatrix;
use rclean::merge::merge_overlapping_clusters;
use rclean::model::SimpleFileInfo;

fn create_test_file(path: &str, size: u64, hash: Option<String>) -> SimpleFileInfo {
    SimpleFileInfo { path: path.to_string(), size_bytes: size, ssdeep_hash: hash }
}

fn table(n: usize, pairs: &[(usize, usize, u8)]) -> Vec<Vec<Option<u8>>> {
    let mut scores = vec![vec![Some(0); n]; n];
    for (i, j, s) in pairs {
        scores[*i][*j] = Some(*s);
    }
    scores
}

fn paths(cluster: &LargeFileCluster) -> Vec<String> {
    cluster.files.iter().map(|f| f.path.clone()).collect()
}

#[test]
fn test_lsh_buckets() {
    let files = vec![
        create_test_file("a.txt", 1000, Some("3:abc123:def456".to_string())),
        create_test_file("b.txt", 1000, Some("3:abc123:ghi789".to_string())),
        create_test_file("c.txt", 1000, Some("6:xyz123:123456".to_string())),
    ];

    let buckets = compute_lsh_buckets(&files);

    // Files with same block size and similar chunks should be in same bucket
    assert!(!buckets.is_empty());
    assert_eq!(buckets, vec![vec![0, 1], vec![2]]);
}

#[test]
fn bucket_keys_take_block_size_and_start_of_first_chunk() {
    let key = hash_key("3:abcdefghijkl:xyz").unwrap();
    assert_eq!((key.number, key.text.as_str()), (3, "abcdefgh"));
    let key = hash_key("12:ab:").unwrap();
    assert_eq!((key.number, key.text.as_str()), (12, "ab"));
    // A block size that is no number counts as 0.
    let key = hash_key("x:ab:cd:ef").unwrap();
    assert_eq!((key.number, key.text.as_str()), (0, "ab"));
    let key = hash_key("::").unwrap();
    assert_eq!((key.number, key.text.as_str()), (0, ""));
    assert!(hash_key("3:abc").is_none());
    assert!(hash_key("").is_none());
}

#[test]
fn files_without_usable_hash_are_in_no_bucket() {
    let files = vec![
        create_test_file("a", 1, None),
        create_test_file("b", 1, Some("3:abc".to_string())),
        create_test_file("c", 1, Some("3:k:z".to_string())),
        create_test_file("d", 1, Some("03:k:y".to_string())),
        create_test_file("e", 1, Some("4:k:y".to_string())),
    ];
    assert_eq!(compute_lsh_buckets(&files), vec![vec![2, 3], vec![4]]);
    assert!(compute_lsh_buckets(&[]).is_empty());
}

#[test]
fn test_merge_overlapping_clusters() {
    let cluster1 = LargeFileCluster {
        cluster_id: 0,
        files: vec![
            create_test_file("a.txt", 1000, Some("3:abc:def".to_string())),
            create_test_file("b.txt", 2000, Some("3:abc:def".to_string())),
        ],
        total_size: 3000,
        avg_similarity: Ratio { num: 90, den: 1 },
        density: Ratio { num: 8, den: 10 },
    };

    let cluster2 = LargeFileCluster {
        cluster_id: 1,
        files: vec![
            create_test_file("b.txt", 2000, Some("3:abc:def".to_string())), // Overlapping file
            create_test_file("c.txt", 3000, Some("3:abc:ghi".to_string())),
        ],
        total_size: 5000,
        avg_similarity: Ratio { num: 85, den: 1 },
        density: Ratio { num: 7, den: 10 },
    };

    let merged = merge_overlapping_clusters(vec![cluster1, cluster2]);

    assert_eq!(merged.len(), 1);
    assert_eq!(merged[0].files.len(), 3); // a, b, c (no duplicates)
    assert_eq!(merged[0].total_size, 6000); // Recalculated
    assert_eq!(paths(&merged[0]), vec!["a.txt", "b.txt", "c.txt"]);
    assert_eq!(merged[0].cluster_id, 0);
    assert_eq!(merged[0].avg_similarity, Ratio { num: 90, den: 1 });
}

#[test]
fn merging_gathers_later_clusters_as_the_paths_grow() {
    let single = |id: usize, names: &[&str]| LargeFileCluster {
        cluster_id: id,
        files: names.iter().map(|n| create_test_file(n, 10, None)).collect(),
        total_size: 10 * names.len() as u64,
        avg_similarity: Ratio { num: 100, den: 1 },
        density: Ratio { num: 1, den: 1 },
    };
    let merged = merge_overlapping_clusters(vec![
        single(0, &["a", "b"]),
        single(1, &["x", "y"]),
        single(2, &["b", "c"]),
        single(3, &["c", "d", "d"]),
        single(4, &["y"]),
    ]);
    assert_eq!(merged.len(), 2);
    assert_eq!(paths(&merged[0]), vec!["a", "b", "c", "d"]);
    assert_eq!(merged[0].total_size, 40);
    assert_eq!(paths(&merged[1]), vec!["x", "y"]);
    assert_eq!(merged[1].cluster_id, 1);
    assert!(merge_overlapping_clusters(vec![]).is_empty());
}

#[test]
fn test_batch_clustering() {
    let files: Vec<_> = (0..10)
        .map(|i| {
            create_test_file(
                &format!("file{}.txt", i),
                1000 * (i as u64 + 1),
                Some(format!("3:abc{}:def", i % 3)),
            )
        })
        .collect();
    // Files with the same hash are fully similar.
    let mut scores = vec![vec![Some(0u8); 10]; 10];
    for i in 0..10 {
        for j in 0..10 {
            if i % 3 == j % 3 {
                scores[i][j] = Some(100);
            }
        }
    }

    let result = detect_clusters_batched(&files, &scores, 70, 2, 5);
    assert!(result.is_ok());
    let clusters = result.unwrap();

    // Should have found some clusters based on the pattern
    assert!(!clusters.is_empty());
    assert_eq!(clusters.len(), 3);
    assert_eq!(paths(&clusters[0]), vec!["file0.txt", "file3.txt", "file6.txt", "file9.txt"]);
    assert_eq!(clusters[0].total_size, 1000 + 4000 + 7000 + 10000);
    assert_eq!(paths(&clusters[1]), vec!["file1.txt", "file4.txt", "file7.txt"]);
    assert_eq!(paths(&clusters[2]), vec!["file2.txt", "file5.txt", "file8.txt"]);
}

#[test]
fn batched_clustering_refuses_a_bad_threshold_before_any_work() {
    let files: Vec<_> = (0..4)
        .map(|i| create_test_file(&format!("f{}", i), 10, Some(format!("3:k{}:z", i / 2))))
        .collect();
    let scores = table(4, &[(0, 1, 90), (2, 3, 90)]);
    // Fits in one batch: refused at once.
    assert!(matches!(
        detect_clusters_batched(&files, &scores, 49, 2, 4),
        Err(ClusteringError::InvalidSimilarity(49))
    ));
    // Bucketed, and a bucket is large enough to be clustered.
    assert!(matches!(
        detect_clusters_batched(&files, &scores, 101, 2, 3),
        Err(ClusteringError::InvalidSimilarity(101))
    ));
    // Bucketed, and no bucket is large enough: refused all the same.
    assert!(matches!(
        detect_clusters_batched(&files, &scores, 101, 3, 3),
        Err(ClusteringError::InvalidSimilarity(101))
    ));
    // One file without a hash and no batch at all.
    let lone = vec![create_test_file("lone", 1, None)];
    assert!(matches!(
        detect_clusters_batched(&lone, &table(1, &[]), 49, 2, 0),
        Err(ClusteringError::InvalidSimilarity(49))
    ));
    assert_eq!(detect_clusters_batched(&files, &scores, 80, 3, 3).unwrap().len(), 0);
    let clusters = detect_clusters_batched(&files, &scores, 80, 2, 3).unwrap();
    assert_eq!(clusters.len(), 2);
    assert_eq!(paths(&clusters[0]), vec!["f0", "f1"]);
    assert_eq!(paths(&clusters[1]), vec!["f2", "f3"]);
}

#[test]
fn two_pairs_far_apart_make_two_disjoint_clusters() {
    let files = vec![
        create_test_file("A", 100, Some("3:a:a".to_string())),
        create_test_file("B", 200, Some("3:a:b".to_string())),
        create_test_file("C", 400, Some("3:c:c".to_string())),
        create_test_file("D", 800, Some("3:c:d".to_string())),
    ];
    // distance(A,B) = distance(C,D) = 10, every other pair 90.
    let scores = table(
        4,
        &[(0, 1, 90), (2, 3, 90), (0, 2, 10), (0, 3, 10), (1, 2, 10), (1, 3, 10)],
    );
    let clusters = detect_large_file_clusters(&files, &scores, 80, 2).unwrap();
    assert_eq!(clusters.len(), 2);
    assert_eq!(paths(&clusters[0]), vec!["A", "B"]);
    assert_eq!(paths(&clusters[1]), vec!["C", "D"]);
    assert_eq!((clusters[0].cluster_id, clusters[1].cluster_id), (0, 1));
    assert_eq!((clusters[0].total_size, clusters[1].total_size), (300, 1200));
    assert_eq!(clusters[0].avg_similarity, Ratio { num: 90, den: 1 });
    assert_eq!(clusters[0].density, Ratio { num: 1, den: 1 });
    for cluster in &clusters {
        assert!(cluster.files.len() >= 2);
    }
}

#[test]
fn files_without_hash_take_no_part_in_clustering() {
    let files = vec![
        create_test_file("a", 1, Some("3:a:a".to_string())),
        create_test_file("b", 2, None),
        create_test_file("c", 4, Some("3:a:c".to_string())),
    ];
    let scores = table(3, &[(0, 1, 100), (1, 2, 100), (0, 2, 75)]);
    let clusters = detect_large_file_clusters(&files, &scores, 70, 2).unwrap();
    assert_eq!(clusters.len(), 1);
    assert_eq!(paths(&clusters[0]), vec!["a", "c"]);
    assert_eq!(clusters[0].total_size, 5);
    assert_eq!(clusters[0].avg_similarity, Ratio { num: 75, den: 1 });
    // A score above 100 is no score.
    let scores = table(3, &[(0, 2, 175)]);
    assert!(detect_large_file_clusters(&files, &scores, 70, 2).unwrap().is_empty());
    // Exactly at the threshold the files are neighbours.
    let scores = table(3, &[(0, 2, 70)]);
    assert_eq!(detect_large_file_clusters(&files, &scores, 70, 2).unwrap().len(), 1);
    let scores = table(3, &[(0, 2, 69)]);
    assert!(detect_large_file_clusters(&files, &scores, 70, 2).unwrap().is_empty());
}

#[test]
fn a_border_point_goes_to_the_cluster_found_first() {
    // Files 0 to 3 are close to each other; 4 is close to 0 and 5 only; 5 is
    // close to 4, 6 and 7; 6 and 7 are close to 5 only.
    let mut m = DistanceMatrix::zeros(8);
    for i in 0..8 {
        for j in 0..8 {
            if i != j {
                m.set(i, j, 90);
            }
        }
    }
    for (i, j) in [(0, 1), (0, 2), (0, 3), (1, 2), (1, 3), (2, 3), (0, 4), (4, 5), (5, 6), (5, 7)] {
        m.set(i, j, 5);
        m.set(j, i, 5);
    }
    let labels = simple_dbscan(&m, 10, 4);
    // 4 has three files in its neighbourhood and is no core point. It lies
    // on the border of both clusters and joins the one found first, which
    // leaves three files for the cluster that 5 starts.
    assert_eq!(
        labels,
        vec![Some(0), Some(0), Some(0), Some(0), Some(0), Some(1), Some(1), Some(1)]
    );
}

#[test]
fn noise_stays_unlabelled() {
    let mut m = DistanceMatrix::zeros(3);
    for (i, j) in [(0, 1), (0, 2), (1, 2)] {
        m.set(i, j, 50);
        m.set(j, i, 50);
    }
    assert_eq!(simple_dbscan(&m, 20, 2), vec![None, None, None]);
    assert_eq!(simple_dbscan(&m, 20, 1), vec![Some(0), Some(1), Some(2)]);
    assert_eq!(simple_dbscan(&m, 50, 3), vec![Some(0), Some(0), Some(0)]);
    assert_eq!(simple_dbscan(&DistanceMatrix::zeros(0), 20, 2), Vec::<Option<usize>>::new());
}

#[test]
fn from_four_files_on_a_cluster_can_fall_short_of_the_minimum() {
    // The files of `a_border_point_goes_to_the_cluster_found_first`: close
    // pairs score 95, all others 10.
    let files: Vec<_> = (0..8)
        .map(|i| create_test_file(&format!("f{}", i), 1 << i, Some(format!("3:h{}:x", i))))
        .collect();
    let mut scores = vec![vec![Some(10u8); 8]; 8];
    for (i, j) in [(0, 1), (0, 2), (0, 3), (1, 2), (1, 3), (2, 3), (0, 4), (4, 5), (5, 6), (5, 7)] {
        scores[i][j] = Some(95);
    }
    let clusters = detect_large_file_clusters(&files, &scores, 90, 4).unwrap();
    assert_eq!(clusters.len(), 2);
    assert_eq!(paths(&clusters[0]), vec!["f0", "f1", "f2", "f3", "f4"]);
    assert_eq!(paths(&clusters[1]), vec!["f5", "f6", "f7"]);
    assert_eq!(clusters[1].total_size, 32 + 64 + 128);
    assert_eq!(clusters[1].avg_similarity, Ratio { num: 95 + 95 + 10, den: 3 });
    assert_eq!(clusters[1].density, Ratio { num: 2, den: 3 });

    // With three files to a cluster every cluster reaches the minimum.
    for cluster in detect_large_file_clusters(&files, &scores, 90, 3).unwrap() {
        assert!(cluster.files.len() >= 3);
    }
}

#[test]
fn a_path_given_twice_can_be_in_two_clusters() {
    let files = vec![
        create_test_file("a", 1, Some("3:x:1".to_string())),
        create_test_file("b", 2, Some("3:x:2".to_string())),
        create_test_file("a", 4, Some("3:y:1".to_string())),
        create_test_file("c", 8, Some("3:y:2".to_string())),
    ];
    let scores = table(4, &[(0, 1, 90), (2, 3, 90)]);
    let clusters = detect_large_file_clusters(&files, &scores, 80, 2).unwrap();
    assert_eq!(clusters.len(), 2);
    assert_eq!(paths(&clusters[0]), vec!["a", "b"]);
    assert_eq!(paths(&clusters[1]), vec!["a", "c"]);
}

#[test]
fn limits_are_tested_before_clustering() {
    assert!(fits_dimension(0));
    assert!(fits_dimension(3_037_000_499));
    assert!(!fits_dimension(3_037_000_500));
    assert!(!fits_dimension(usize::MAX));

    let mut files = vec![
        create_test_file("a", u64::MAX - 1, Some("3:k:a".to_string())),
        create_test_file("b", 1, Some("3:k:b".to_string())),
    ];
    let scores = table(2, &[(0, 1, 100)]);
    assert!(sizes_add_up(&files));
    let clusters = try_detect_clusters_batched(&files, &scores, 70, 2, 1).unwrap().unwrap();
    assert_eq!(clusters.len(), 1);
    assert_eq!(clusters[0].total_size, u64::MAX);
    assert!(matches!(
        try_detect_clusters_batched(&files, &scores, 49, 2, 5),
        Some(Err(ClusteringError::InvalidSimilarity(49)))
    ));

    files[1].size_bytes = 2;
    assert!(!sizes_add_up(&files));
    assert!(try_detect_clusters_batched(&files, &scores, 70, 2, 1).is_none());
    assert!(sizes_add_up(&[]));
}

#[test]
fn clusters_linked_through_a_third_merge_into_one() {
    let cluster = |id: usize, files: &[(&str, u64)]| LargeFileCluster {
        cluster_id: id,
        files: files.iter().map(|(p, s)| create_test_file(p, *s, None)).collect(),
        total_size: files.iter().map(|(_, s)| *s).sum(),
        avg_similarity: Ratio { num: 80 + id as i128, den: 1 },
        density: Ratio { num: 1, den: 1 },
    };
    let merged = merge_overlapping_clusters(vec![
        cluster(0, &[("a.txt", 1000), ("x.txt", 2000)]),
        cluster(1, &[("b.txt", 3000), ("y.txt", 4000)]),
        cluster(2, &[("x.txt", 2000), ("y.txt", 4000)]),
    ]);
    assert_eq!(merged.len(), 1);
    assert_eq!(paths(&merged[0]), vec!["a.txt", "x.txt", "b.txt", "y.txt"]);
    assert_eq!(merged[0].total_size, 10_000);
    assert_eq!(merged[0].cluster_id, 0);
    assert_eq!(merged[0].avg_similarity, Ratio { num: 80, den: 1 });

    // A chain of four, given out of order, with a bystander in between.
    let merged = merge_overlapping_clusters(vec![
        cluster(0, &[("d", 1), ("e", 2)]),
        cluster(1, &[("p", 4)]),
        cluster(2, &[("a", 8), ("b", 16)]),
        cluster(3, &[("c", 32), ("d", 1)]),
        cluster(4, &[("b", 16), ("c", 32)]),
    ]);
    assert_eq!(merged.len(), 2);
    assert_eq!(paths(&merged[0]), vec!["d", "e", "a", "b", "c"]);
    assert_eq!(merged[0].total_size, 1 + 2 + 8 + 16 + 32);
    assert_eq!(paths(&merged[1]), vec!["p"]);
    assert_eq!(merged[1].cluster_id, 1);
    for a in 0..merged.len() {
        for b in (a + 1)..merged.len() {
            assert!(paths(&merged[a]).iter().all(|p| !paths(&merged[b]).contains(p)));
        }
    }
}

#[test]
fn a_merged_cluster_holds_each_path_once() {
    let lone = LargeFileCluster {
        cluster_id: 5,
        files: vec![
            create_test_file("a", 10, None),
            create_test_file("a", 20, None),
            create_test_file("b", 40, None),
        ],
        total_size: 70,
        avg_similarity: Ratio { num: 100, den: 1 },
        density: Ratio { num: 1, den: 1 },
    };
    let merged = merge_overlapping_clusters(vec![lone]);
    assert_eq!(merged.len(), 1);
    assert_eq!(paths(&merged[0]), vec!["a", "b"]);
    // Of the files with one path the first stays.
    assert_eq!(merged[0].total_size, 50);
    assert_eq!(merged[0].cluster_id, 5);
}

#[test]
fn block_sizes_are_read_as_decimal_numbers() {
    let number = |hash: &str| hash_key(hash).unwrap().number;
    assert_eq!(number("0:a:b"), 0);
    assert_eq!(number("007:a:b"), 7);
    assert_eq!(number("+12:a:b"), 12);
    assert_eq!(number("18446744073709551615:a:b"), u64::MAX);
    // No number: too large, signed, empty, spaced or with other characters.
    assert_eq!(number("18446744073709551616:a:b"), 0);
    assert_eq!(number("-3:a:b"), 0);
    assert_eq!(number("+:a:b"), 0);
    assert_eq!(number(":a:b"), 0);
    assert_eq!(number(" 3:a:b"), 0);
    assert_eq!(number("3x:a:b"), 0);
    assert_eq!(number("\u{664}:a:b"), 0);
}
