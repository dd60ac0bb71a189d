use rclean::consumers::{detect_hidden_consumers, listed_sizes_add_up};
use rclean::model::SimpleFileInfo;
use rclean::outliers::{detect_large_file_outliers, OutlierOptions};
use rclean::patterns::{detect_dated_pattern, detect_numbered_pattern, detect_pattern_groups};

fn file(path: &str, size: u64) -> SimpleFileInfo {
    SimpleFileInfo { path: path.to_string(), size_bytes: size, ssdeep_hash: None }
}

fn parts(prefix: &str, suffix: &str) -> Option<(String, String)> {
    Some((prefix.to_string(), suffix.to_string()))
}

/// Marks the files whose size lies more than `threshold` standard deviations
/// above the mean, and gives each file's z-score.
fn z_scores(files: &[SimpleFileInfo], threshold: f64) -> (Vec<bool>, Vec<f64>) {
    let sizes: Vec<f64> = files.iter().map(|f| f.size_bytes as f64).collect();
    let mean = sizes.iter().sum::<f64>() / sizes.len() as f64;
    let variance =
        sizes.iter().map(|s| (s - mean) * (s - mean)).sum::<f64>() / sizes.len() as f64;
    let std_dev = variance.sqrt();
    let scores: Vec<f64> =
        sizes.iter().map(|s| if std_dev > 0.0 { (s - mean) / std_dev } else { 0.0 }).collect();
    (scores.iter().map(|z| *z > threshold).collect(), scores)
}

#[test]
fn test_detect_numbered_pattern() {
    assert_eq!(detect_numbered_pattern("backup-001.tar"), parts("backup", ".tar"));
    assert_eq!(detect_numbered_pattern("file_123.log"), parts("file", ".log"));
    assert_eq!(detect_numbered_pattern("test123"), parts("test", ""));
    assert_eq!(detect_numbered_pattern("no-numbers.txt"), None);
}

#[test]
fn test_detect_dated_pattern() {
    assert_eq!(detect_dated_pattern("log-2024-01-01.txt"), parts("log", ".txt"));
    assert_eq!(detect_dated_pattern("backup_2024_12_31.tar"), parts("backup", ".tar"));
    assert_eq!(detect_dated_pattern("report-2024-01-01"), parts("report", ""));
    assert_eq!(detect_dated_pattern("no-date.txt"), None);
}

#[test]
fn test_outlier_options_default() {
    let options = OutlierOptions::default();
    assert_eq!(options.top_n, Some(20));
    assert_eq!(options.std_dev_threshold_thousandths as f64 / 1000.0, 2.0);
    assert!(options.check_hidden_consumers);
    assert!(options.check_patterns);
    assert!(!options.include_empty_dirs);
    assert!(!options.enable_clustering);
    assert_eq!(options.cluster_similarity_threshold, 70);
    assert_eq!(options.min_cluster_size, 2);
}

#[test]
fn test_outlier_options_custom() {
    let options = OutlierOptions {
        min_size: Some(1024 * 1024), // 1MB
        top_n: Some(10),
        std_dev_threshold_thousandths: 3000,
        check_hidden_consumers: false,
        include_empty_dirs: true,
        check_patterns: false,
        enable_clustering: false,
        cluster_similarity_threshold: 70,
        min_cluster_size: 2,
    };

    assert_eq!(options.min_size, Some(1024 * 1024));
    assert_eq!(options.top_n, Some(10));
    assert_eq!(options.std_dev_threshold_thousandths as f64 / 1000.0, 3.0);
    assert!(!options.check_hidden_consumers);
    assert!(options.include_empty_dirs);
    assert!(!options.check_patterns);
    assert!(!options.enable_clustering);
    assert_eq!(options.cluster_similarity_threshold, 70);
    assert_eq!(options.min_cluster_size, 2);
}

#[test]
fn one_huge_file_is_the_sole_outlier() {
    let mut files: Vec<SimpleFileInfo> =
        (0..9).map(|i| file(&format!("small{}.txt", i), 10_000)).collect();
    files.push(file("large.txt", 1_000_000));
    let (above, scores) = z_scores(&files, 1.5);
    let options = OutlierOptions { top_n: Some(10), ..OutlierOptions::default() };

    let outliers = detect_large_file_outliers(&files, &above, &options);

    assert_eq!(outliers, vec![9]);
    assert_eq!(files[outliers[0]].path, "large.txt");
    assert!(scores[outliers[0]] > 1.5);
}

#[test]
fn outliers_come_largest_first_and_are_cut_to_top_n() {
    let files: Vec<SimpleFileInfo> =
        (0..10).map(|i| file(&format!("file{}.txt", i), 10_000 + i * 10_000)).collect();
    let (above, _) = z_scores(&files, 0.1);
    assert_eq!(above, vec![false, false, false, false, false, true, true, true, true, true]);

    let options = OutlierOptions { top_n: Some(3), ..OutlierOptions::default() };
    assert_eq!(detect_large_file_outliers(&files, &above, &options), vec![9, 8, 7]);

    let options = OutlierOptions { top_n: None, ..OutlierOptions::default() };
    assert_eq!(detect_large_file_outliers(&files, &above, &options), vec![9, 8, 7, 6, 5]);

    let options = OutlierOptions { top_n: Some(0), ..OutlierOptions::default() };
    assert_eq!(detect_large_file_outliers(&files, &above, &options), Vec::<usize>::new());
}

#[test]
fn outliers_below_min_size_are_left_out() {
    let files = vec![file("a", 500), file("b", 700), file("c", 700), file("d", 100)];
    let above = vec![true, true, true, true];
    let options =
        OutlierOptions { min_size: Some(600), top_n: None, ..OutlierOptions::default() };
    // Equal sizes keep the order given.
    assert_eq!(detect_large_file_outliers(&files, &above, &options), vec![1, 2]);
    // A file that the marks do not cover is no outlier.
    let short = vec![true];
    let options = OutlierOptions { min_size: None, top_n: None, ..OutlierOptions::default() };
    assert_eq!(detect_large_file_outliers(&files, &short, &options), vec![0]);
    assert_eq!(detect_large_file_outliers(&[], &above, &options), Vec::<usize>::new());
}

#[test]
fn four_numbered_backups_form_one_pattern_group() {
    let files = vec![
        file("/data/backup-001.tar", 40_000),
        file("/data/backup-002.tar", 40_000),
        file("/data/backup-003.tar", 40_000),
        file("/data/backup-004.tar", 40_000),
    ];
    let groups = detect_pattern_groups(&files);
    assert_eq!(groups.len(), 1);
    assert_eq!(groups[0].count, 4);
    assert!(groups[0].pattern.contains("backup"));
    assert_eq!(groups[0].pattern, "backup*.tar");
    assert_eq!(groups[0].total_size_bytes, 160_000);
    assert_eq!(groups[0].sample_files.len(), 4);
}

#[test]
fn pattern_groups_need_three_files_and_come_largest_first() {
    let mut files = vec![
        file("/d/log-2024-01-01.txt", 15_000),
        file("/d/backup-001.tar", 1),
        file("/d/log-2024-01-02.txt", 15_000),
        file("/d/backup-002.tar", 2),
        file("/d/log-2024-01-03.txt", 15_000),
        file("/d/backup-003.tar", 3),
        file("/d/img_10.png", 9),
        file("/d/img_11.png", 9),
        file("/d/readme.md", 1_000_000),
    ];
    for i in 4..=7 {
        files.push(file(&format!("/d/backup-00{}.tar", i), 10));
    }
    let groups = detect_pattern_groups(&files);
    assert_eq!(groups.len(), 2);
    // A date ends in two digits, so a dated name is a numbered name too.
    assert_eq!(groups[0].pattern, "log-2024-01*.txt");
    assert_eq!(groups[0].count, 3);
    assert_eq!(groups[0].total_size_bytes, 45_000);
    assert_eq!(groups[1].pattern, "backup*.tar");
    assert_eq!(groups[1].count, 7);
    assert_eq!(groups[1].total_size_bytes, 46);
    assert_eq!(
        groups[1].sample_files,
        vec![
            "/d/backup-001.tar",
            "/d/backup-002.tar",
            "/d/backup-003.tar",
            "/d/backup-004.tar",
            "/d/backup-005.tar"
        ]
    );
}

#[test]
fn known_directories_are_reported_largest_first() {
    let infos = vec![
        file("/p/node_modules/package1.js", 50_000),
        file("/p/node_modules/package2.js", 50_000),
        file("/p/.git/objects", 100_001),
        file("/p/src/main.rs", 7_000),
        file("/p/tmp/empty", 0),
    ];
    let paths: Vec<String> = infos.iter().map(|f| f.path.clone()).collect();
    let found = detect_hidden_consumers(&paths, &infos);
    assert_eq!(found.len(), 2);
    assert_eq!(found[0].path, "/p/.git");
    assert_eq!(found[0].pattern_type, "Git repository data");
    assert_eq!(found[0].total_size_bytes, 100_001);
    assert_eq!(found[0].file_count, 1);
    assert_eq!(found[0].recommendation, "Run git gc to clean up unnecessary files");
    assert_eq!(found[1].path, "/p/node_modules");
    assert!(found[1].pattern_type.contains("Node.js"));
    assert_eq!(found[1].total_size_bytes, 100_000);
    assert_eq!(found[1].file_count, 2);
}

#[test]
fn listed_files_without_a_record_do_not_count() {
    let infos = vec![file("/w/logs/a.log", 10), file("/w/logs/a.log", 25)];
    let paths = vec!["/w/logs/a.log".to_string(), "/w/logs/b.log".to_string()];
    let found = detect_hidden_consumers(&paths, &infos);
    assert_eq!(found.len(), 1);
    assert_eq!(found[0].path, "/w/logs");
    assert_eq!(found[0].pattern_type, "Log files");
    // The later record of a path is the one that counts.
    assert_eq!(found[0].total_size_bytes, 25);
    assert_eq!(found[0].file_count, 1);
    assert!(detect_hidden_consumers(&[], &infos).is_empty());
}

#[test]
fn listed_sizes_count_each_listing_of_a_path() {
    let infos = vec![file("/w/tmp/a", u64::MAX / 2 + 1), file("/w/other", 5)];
    let once = vec!["/w/tmp/a".to_string(), "/w/none".to_string()];
    assert!(listed_sizes_add_up(&once, &infos));
    let twice = vec!["/w/tmp/a".to_string(), "/w/tmp/a".to_string()];
    assert!(!listed_sizes_add_up(&twice, &infos));
    assert!(listed_sizes_add_up(&[], &infos));
}
