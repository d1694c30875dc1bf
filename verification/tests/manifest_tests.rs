use ocard::manifest::{Manifest, ManifestFileEntry, HASH_ALGO, MANIFEST_VERSION};

fn sample() -> Manifest {
    let mut m = Manifest::new(
        "20260824_某活动",
        "CARD-001",
        "DJIRONIN4D_B_ZS",
        "DIT-张三",
        "双卡备份",
        "E:",
        vec!["2. 原始素材".to_string(), "backup".to_string()],
    );
    m.files.push(ManifestFileEntry { path: "A001_0001.MP4".to_string(), size: 1024, hash: "abc".to_string(), verified: true });
    m.files.push(ManifestFileEntry { path: "A001_0002.MP4".to_string(), size: 2048, hash: "def".to_string(), verified: false });
    m
}

#[test]
fn manifest_stats() {
    let m = sample();
    assert_eq!(m.verified_count(), 1);
    assert_eq!(m.total_bytes(), 1024 + 2048);
    assert!(!m.all_verified());

    let mut done = sample();
    done.files[1].verified = true;
    assert!(done.all_verified());
}

#[test]
fn manifest_resume_skip() {
    let m = sample();
    assert!(m.has_verified("A001_0001.MP4", 1024, "abc"));
    assert!(!m.has_verified("A001_0001.MP4", 1024, "xyz"));
    assert!(!m.has_verified("A001_0001.MP4", 9999, "abc"));
    assert!(!m.has_verified("A001_0002.MP4", 2048, "def"));
}

#[test]
fn empty_manifest_not_all_verified() {
    let m = Manifest::new("p", "c", "k", "o", "n", "s", vec![]);
    assert!(!m.all_verified());
}

#[test]
fn manifest_header_and_finish() {
    let mut m = sample();
    assert_eq!(m.version, MANIFEST_VERSION);
    assert_eq!(m.hash_algo, HASH_ALGO);
    assert!(m.completed_at.is_none());
    assert!(!m.started_at.is_empty());
    m.finish();
    assert!(m.completed_at.is_some());
}
