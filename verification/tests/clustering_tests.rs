use rclean::cluster::{
    aggregate_clusters, calculate_avg_similarity, calculate_density, ClusteringError,
};
use rclean::clustering::detect_large_file_clusters;
use rclean::dbscan::simple_dbscan;
use rclean::distance::{build_distance_matrix, similarity_to_distance};
use rclean::matrix::DistanceMatrix;
use rclean::model::SimpleFileInfo;

fn create_test_file(path: &str, size: u64, hash: Option<String>) -> SimpleFileInfo {
    SimpleFileInfo { path: path.to_string(), size_bytes: size, ssdeep_hash: hash }
}

fn no_scores(n: usize) -> Vec<Vec<Option<u8>>> {
    vec![vec![None; n]; n]
}

fn matrix_from(rows: &[Vec<i32>]) -> DistanceMatrix {
    let mut m = DistanceMatrix::zeros(rows.len());
    for (i, row) in rows.iter().enumerate() {
        for (j, d) in row.iter().enumerate() {
            m.set(i, j, *d);
        }
    }
    m
}

#[test]
fn test_similarity_to_distance() {
    assert_eq!(similarity_to_distance(100), 0);
    assert_eq!(similarity_to_distance(70), 30);
    assert_eq!(similarity_to_distance(0), 100);
}

#[test]
fn test_distance_matrix_symmetry() {
    let files = vec![
        create_test_file("a.txt", 1000, Some("3:abc:def".to_string())),
        create_test_file("b.txt", 1000, Some("3:abc:ghi".to_string())),
        create_test_file("c.txt", 1000, Some("3:xyz:123".to_string())),
    ];
    let mut scores = no_scores(3);
    scores[0][1] = Some(63);
    scores[0][2] = Some(0);
    scores[1][2] = None;

    let matrix = build_distance_matrix(&files, &scores);

    for i in 0..files.len() {
        for j in 0..files.len() {
            assert_eq!(matrix.get(i, j), matrix.get(j, i), "Distance matrix must be symmetric");
        }
    }
    assert_eq!(matrix.get(0, 1), 37);
    assert_eq!(matrix.get(0, 2), 100);
    assert_eq!(matrix.get(1, 2), 100);
    assert_eq!(matrix.get(1, 1), 0);
}

#[test]
fn test_cluster_detection_edge_cases() {
    // Empty input
    assert_eq!(detect_large_file_clusters(&[], &no_scores(0), 70, 2).unwrap().len(), 0);

    // Single file
    let single = vec![create_test_file("single.txt", 1000, Some("3:abc:def".to_string()))];
    assert_eq!(detect_large_file_clusters(&single, &no_scores(1), 70, 2).unwrap().len(), 0);

    // Files without hashes
    let no_hashes =
        vec![create_test_file("a.txt", 1000, None), create_test_file("b.txt", 1000, None)];
    let mut scores = no_scores(2);
    scores[0][1] = Some(100);
    assert_eq!(detect_large_file_clusters(&no_hashes, &scores, 70, 2).unwrap().len(), 0);
}

#[test]
fn test_invalid_similarity_threshold() {
    let files = vec![create_test_file("a.txt", 1000, Some("3:abc:def".to_string()))];

    assert!(matches!(
        detect_large_file_clusters(&files, &no_scores(1), 49, 2),
        Err(ClusteringError::InvalidSimilarity(49))
    ));

    assert!(matches!(
        detect_large_file_clusters(&files, &no_scores(1), 101, 2),
        Err(ClusteringError::InvalidSimilarity(101))
    ));
}

#[test]
fn test_cluster_aggregation() {
    let files = vec![
        create_test_file("a.txt", 1000, Some("3:abc:def".to_string())),
        create_test_file("b.txt", 2000, Some("3:abc:def".to_string())),
        create_test_file("c.txt", 3000, Some("3:xyz:123".to_string())),
    ];
    let mut scores = no_scores(3);
    scores[0][1] = Some(100);
    scores[0][2] = Some(0);
    scores[1][2] = Some(0);

    let distances = build_distance_matrix(&files, &scores);
    let cluster_labels = vec![Some(0), Some(0), Some(1)];

    let clusters = aggregate_clusters(&files, cluster_labels, &distances);

    assert_eq!(clusters.len(), 2);

    let mut sorted_clusters = clusters.clone();
    sorted_clusters.sort_by_key(|c| c.files.len());

    assert_eq!(sorted_clusters[1].files.len(), 2); // Cluster with 2 files
    assert_eq!(sorted_clusters[1].total_size, 3000); // 1000 + 2000
    assert_eq!(sorted_clusters[0].files.len(), 1); // Cluster with 1 file
    assert_eq!(sorted_clusters[0].total_size, 3000); // 3000
}

#[test]
fn test_dbscan_implementation() {
    let distances = matrix_from(&[
        vec![0, 10, 90, 90],
        vec![10, 0, 90, 90],
        vec![90, 90, 0, 10],
        vec![90, 90, 10, 0],
    ]);

    let labels = simple_dbscan(&distances, 20, 2);

    assert!(labels[0].is_some());
    assert!(labels[1].is_some());
    assert!(labels[2].is_some());
    assert!(labels[3].is_some());
    assert_eq!(labels[0], labels[1]); // Same cluster
    assert_eq!(labels[2], labels[3]); // Same cluster
    assert_ne!(labels[0], labels[2]); // Different clusters
}

#[test]
fn test_cluster_density_calculation() {
    let indices = vec![0, 1, 2];
    let distances = matrix_from(&[vec![0, 10, 10], vec![10, 0, 10], vec![10, 10, 0]]);

    let density = calculate_density(&indices, &distances);
    assert!(density.num as f64 / density.den as f64 > 0.9);
    assert_eq!((density.num, density.den), (3, 3));
}

#[test]
fn test_average_similarity_calculation() {
    let indices = vec![0, 1, 2];
    let distances = matrix_from(&[vec![0, 20, 30], vec![20, 0, 10], vec![30, 10, 0]]);

    let avg_sim = calculate_avg_similarity(&indices, &distances);
    // Average of 80, 70, 90 = 80
    assert!((avg_sim.num as f64 / avg_sim.den as f64 - 80.0).abs() < 0.1);
    assert_eq!((avg_sim.num, avg_sim.den), (240, 3));
}

#[test]
fn statistics_take_members_in_any_order() {
    let distances = matrix_from(&[vec![0, 20, 30], vec![20, 0, 10], vec![30, 10, 0]]);
    let avg = calculate_avg_similarity(&vec![2, 0, 1], &distances);
    assert_eq!((avg.num, avg.den), (240, 3));
    let density = calculate_density(&vec![2, 0, 1], &distances);
    assert_eq!((density.num, density.den), (2, 3));
    // A position may stand twice: the pair of it with itself counts.
    let avg = calculate_avg_similarity(&vec![1, 1], &distances);
    assert_eq!((avg.num, avg.den), (100, 1));
    let avg = calculate_avg_similarity(&vec![0, 1, 0], &distances);
    assert_eq!((avg.num, avg.den), (80 + 100 + 80, 3));
    // Fewer than two members.
    let avg = calculate_avg_similarity(&vec![2], &distances);
    assert_eq!((avg.num, avg.den), (100, 1));
    let density = calculate_density(&vec![], &distances);
    assert_eq!((density.num, density.den), (1, 1));
    // Distances outside 0..=100 are taken as they are.
    let far = matrix_from(&[vec![0, 250], vec![-50, 0]]);
    let avg = calculate_avg_similarity(&vec![0, 1], &far);
    assert_eq!((avg.num, avg.den), (-150, 1));
    let avg = calculate_avg_similarity(&vec![1, 0], &far);
    assert_eq!((avg.num, avg.den), (150, 1));
}
