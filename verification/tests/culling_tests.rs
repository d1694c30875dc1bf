use ocard::culling::{burst_clusters, cluster_bursts, create_backend, AiBackend};
use ocard::datetime::DateTime;

#[test]
fn stub_backend_honest_degration() {
    let backend = create_backend();
    assert!(backend.detect_face_and_eyes("/nonexistent.jpg").is_none());
}

#[test]
fn burst_clustering_by_time() {
    let dts = vec![
        DateTime::new(2026, 8, 24, 10, 0, 0),
        DateTime::new(2026, 8, 24, 10, 0, 2),
        DateTime::new(2026, 8, 24, 10, 0, 4),
        DateTime::new(2026, 8, 24, 10, 10, 0),
        DateTime::new(2026, 8, 24, 10, 10, 3),
    ];
    let groups = cluster_bursts(&dts, 10);
    assert_eq!(groups.len(), 2);
    assert_eq!(groups[0].len(), 3);
    assert_eq!(groups[1].len(), 2);
}

#[test]
fn burst_clustering_sorts_and_skips_untimed() {
    let dts = vec![
        DateTime::new(2026, 8, 24, 10, 0, 5),
        None,
        DateTime::new(2026, 8, 24, 10, 0, 0),
        DateTime::new(2026, 8, 24, 10, 0, 0),
        DateTime::new(2026, 8, 24, 11, 0, 0),
    ];
    let groups = cluster_bursts(&dts, 5);
    assert_eq!(groups, vec![vec![2, 3, 0], vec![4]]);
}

#[test]
fn burst_clusters_keep_multi_shot_groups() {
    let dts = vec![
        Some("2026-08-24 10:00:00".to_string()),
        Some("2026-08-24 10:00:01".to_string()),
        Some("not a time".to_string()),
        Some("2026-08-24 12:00:00".to_string()),
        None,
    ];
    let clusters = burst_clusters(&dts, 5);
    assert_eq!(clusters, vec![(0, vec![0, 1])]);
}

#[test]
fn bursts_partition_timed_shots() {
    let dts = vec![
        DateTime::new(2026, 8, 24, 10, 0, 0),
        None,
        DateTime::new(2026, 8, 24, 9, 0, 0),
        DateTime::new(2026, 8, 24, 10, 0, 30),
        DateTime::new(2026, 8, 24, 9, 0, 1),
    ];
    let groups = cluster_bursts(&dts, 2);
    let mut all: Vec<usize> = groups.iter().flatten().copied().collect();
    assert!(groups.iter().all(|g| !g.is_empty()));
    all.sort();
    assert_eq!(all, vec![0, 2, 3, 4]);
    assert_eq!(groups, vec![vec![2, 4], vec![0], vec![3]]);
}
