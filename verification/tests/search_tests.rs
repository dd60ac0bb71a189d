use rclean::cluster::ClusteringError;
use rclean::duplicates::{find_duplicates, find_similar_files};
use rclean::model::SimpleFileInfo;
use rclean::outliers::OutlierOptions;
use rclean::report::detect_outliers;
use rclean::search::{find, find_advanced, PatternType};

#[test]
fn test_find() {
    let files = vec![
        "test.txt".to_string(),
        "data.csv".to_string(),
        "test_data.txt".to_string(),
        "readme.md".to_string(),
    ];

    let matches = find(&files, "test");
    assert_eq!(matches.len(), 2);
    assert!(matches.contains(&"test.txt".to_string()));
    assert!(matches.contains(&"test_data.txt".to_string()));

    let matches = find(&files, ".txt");
    assert_eq!(matches.len(), 2);

    let matches = find(&files, "");
    assert_eq!(matches.len(), 4);
}

#[test]
fn test_find_advanced_literal() {
    let files =
        vec!["test.txt".to_string(), "data.csv".to_string(), "test_data.txt".to_string()];

    let pattern = PatternType::Literal("test".to_string());
    let matches = find_advanced(&files, &pattern);
    assert_eq!(matches.len(), 2);
}

#[test]
fn test_find_advanced_glob() {
    let files = vec!["test.txt".to_string(), "data.csv".to_string(), "test.rs".to_string()];

    let mut builder = globset::GlobSetBuilder::new();
    builder.add(globset::Glob::new("*.txt").unwrap());
    let globset = builder.build().unwrap();
    let pattern = PatternType::Glob(globset);

    let matches = find_advanced(&files, &pattern);
    assert_eq!(matches.len(), 1);
    assert_eq!(matches[0], "test.txt");
}

#[test]
fn test_find_advanced_regex() {
    let files = vec!["test.txt".to_string(), "data.csv".to_string(), "test123.txt".to_string()];

    let regex = regex::Regex::new(r"test\d+\.txt").unwrap();
    let pattern = PatternType::Regex(regex);

    let matches = find_advanced(&files, &pattern);
    assert_eq!(matches.len(), 1);
    assert_eq!(matches[0], "test123.txt");
}

#[test]
fn find_keeps_order_and_matches_anywhere() {
    let files = vec!["xab".to_string(), "ab".to_string(), "ba".to_string(), "aab".to_string()];
    assert_eq!(find(&files, "ab"), vec!["xab", "ab", "aab"]);
    assert_eq!(find(&files, "aab"), vec!["aab"]);
    assert_eq!(find(&files, "abc"), Vec::<String>::new());
    assert_eq!(find(&[], "a"), Vec::<String>::new());
    let literal = PatternType::Literal("ab".to_string());
    assert_eq!(find_advanced(&files, &literal), find(&files, "ab"));
}

fn file(path: &str, size: u64, hash: Option<&str>) -> SimpleFileInfo {
    SimpleFileInfo {
        path: path.to_string(),
        size_bytes: size,
        ssdeep_hash: hash.map(|h| h.to_string()),
    }
}

#[test]
fn test_detect_outliers_empty_directory() {
    // An empty directory lists no file.
    let options = OutlierOptions::default();

    let report = detect_outliers(&[], &[], &vec![], &vec![], &options);

    assert_eq!(report.large_files.len(), 0);
    assert_eq!(report.hidden_consumers.len(), 0);
    assert_eq!(report.pattern_groups.len(), 0);
    assert_eq!(report.large_file_clusters.len(), 0);
    assert_eq!(report.total_files_analyzed, 0);
    assert_eq!(report.total_size_analyzed, 0);
}

#[test]
fn report_without_a_listing_ignores_the_records() {
    let files = vec![file("/x/a", 7, None)];
    let report = detect_outliers(&[], &files, &vec![true], &vec![], &OutlierOptions::default());
    assert_eq!(report.large_files.len(), 0);
    assert_eq!(report.total_files_analyzed, 0);
    assert_eq!(report.total_size_analyzed, 0);
}

#[test]
fn report_composes_the_detectors() {
    let mib = 1024 * 1024;
    let files = vec![
        file("/p/target/a-01.bin", 2 * mib, Some("3:aa:x")),
        file("/p/target/a-02.bin", 2 * mib, Some("3:aa:y")),
        file("/p/target/a-03.bin", 9 * mib, Some("3:aa:z")),
        file("/p/src/small.rs", 10, Some("3:aa:w")),
    ];
    let paths: Vec<String> = files.iter().map(|f| f.path.clone()).collect();
    let above = vec![false, false, true, false];
    let mut scores = vec![vec![None; 4]; 4];
    scores[0][1] = Some(95);
    scores[0][2] = Some(10);
    scores[1][2] = Some(10);
    scores[0][3] = Some(100);

    let options = OutlierOptions { enable_clustering: true, ..OutlierOptions::default() };
    let report = detect_outliers(&paths, &files, &above, &scores, &options);
    assert_eq!(report.total_files_analyzed, 4);
    assert_eq!(report.total_size_analyzed, 13 * mib + 10);
    assert_eq!(report.large_files, vec![2]);
    assert_eq!(report.hidden_consumers.len(), 1);
    assert_eq!(report.hidden_consumers[0].path, "/p/target");
    assert_eq!(report.hidden_consumers[0].pattern_type, "Rust build artifacts");
    assert_eq!(report.hidden_consumers[0].total_size_bytes, 13 * mib);
    assert_eq!(report.hidden_consumers[0].file_count, 3);
    assert_eq!(report.pattern_groups.len(), 1);
    assert_eq!(report.pattern_groups[0].pattern, "a*.bin");
    assert_eq!(report.pattern_groups[0].count, 3);
    // The small file is similar to the first but too small to be clustered.
    assert_eq!(report.large_file_clusters.len(), 1);
    assert_eq!(report.large_file_clusters[0].files.len(), 2);
    assert_eq!(report.large_file_clusters[0].total_size, 4 * mib);

    let options = OutlierOptions {
        check_hidden_consumers: false,
        check_patterns: false,
        enable_clustering: true,
        cluster_similarity_threshold: 40,
        ..OutlierOptions::default()
    };
    let report = detect_outliers(&paths, &files, &above, &scores, &options);
    assert_eq!(report.large_files, vec![2]);
    assert!(report.hidden_consumers.is_empty());
    assert!(report.pattern_groups.is_empty());
    // A threshold that clustering refuses gives no clusters.
    assert!(report.large_file_clusters.is_empty());
}

#[test]
fn test_find_similar_files() {
    // Two files with the same fuzzy hash.
    let hashed = vec![true, true];
    let scores = vec![vec![None, Some(100)], vec![None, None]];

    let similar_groups = find_similar_files(&hashed, &scores, 90).unwrap();
    assert_eq!(similar_groups.len(), 1);
    assert_eq!(similar_groups[0].len(), 2);
    assert_eq!(similar_groups[0], vec![(0, 100), (1, 100)]);
}

#[test]
fn similar_files_follow_the_first_file_that_takes_them() {
    let hashed = vec![true, false, true, true, true];
    let mut scores = vec![vec![None; 5]; 5];
    scores[0][2] = Some(80);
    scores[0][3] = Some(40);
    scores[0][4] = Some(79);
    scores[3][4] = Some(95);
    // File 1 has no hash and is compared with nothing; 4 misses the
    // threshold of 0 and goes with 3.
    assert_eq!(
        find_similar_files(&hashed, &scores, 80).unwrap(),
        vec![vec![(0, 100), (2, 80)], vec![(3, 100), (4, 95)]]
    );
    assert_eq!(
        find_similar_files(&hashed, &scores, 0).unwrap(),
        vec![vec![(0, 100), (2, 80), (3, 40), (4, 79)]]
    );
    // A comparison that is needed and has no score fails the request.
    scores[3][4] = None;
    assert!(matches!(find_similar_files(&hashed, &scores, 80), Err(ClusteringError::HashError(_))));
    // It is not needed where 3 and 4 are taken before it is their turn.
    assert_eq!(find_similar_files(&hashed, &scores, 30).unwrap().len(), 1);
    assert!(find_similar_files(&vec![], &vec![], 50).unwrap().is_empty());
}

#[test]
fn duplicates_are_grouped_by_checksum() {
    let sums: Vec<String> =
        ["aa", "bb", "aa", "cc", "bb", "aa", "dd"].iter().map(|s| s.to_string()).collect();
    assert_eq!(find_duplicates(&sums), vec![vec![0, 2, 5], vec![1, 4]]);
    assert!(find_duplicates(&vec!["x".to_string()]).is_empty());
    assert!(find_duplicates(&vec![]).is_empty());
}

#[test]
fn test_error_handling_nonexistent_path() {
    // A path that does not exist lists no file.
    let options = OutlierOptions::default();

    let report = detect_outliers(&[], &[], &vec![], &vec![], &options);

    assert_eq!(report.total_files_analyzed, 0);
    assert!(report.large_files.is_empty());
}
