use ocard::copy_engine::{dest_subdir, readback_targets, rel_path, skip_entry, CopyRun, CopyTaskOptions};
use ocard::datetime::DateTime;
use ocard::manifest::{manifest_file_name, Manifest, ManifestFileEntry};

#[test]
fn dest_subdir_workflow_a() {
    let ts = DateTime::new(2026, 1, 1, 9, 0, 0).unwrap();
    assert_eq!(dest_subdir("A", "DJIRONIN4D_B_ZS", "20260824", Some(&ts)), "2. 原始素材/20260824_DJIRONIN4D_B_ZS");
    assert_eq!(dest_subdir("B", "CAM_A_ZS", "20260824", Some(&ts)), "1. 待分类/0101上午_CAM_A_ZS");
    assert_eq!(dest_subdir("B", "CAM_A_ZS", "20260824", None), "1. 待分类/0000上午_CAM_A_ZS");
}

#[test]
fn relative_paths_and_hidden_entries() {
    assert_eq!(rel_path("/card", "/card/sub/b.txt"), "sub/b.txt");
    assert_eq!(rel_path("/card", "/other/x"), "/other/x");
    assert!(skip_entry(1, ".ocard"));
    assert!(!skip_entry(0, ".card"));
    assert!(!skip_entry(2, "a.txt"));
}

fn options(dests: Vec<String>) -> CopyTaskOptions {
    CopyTaskOptions {
        source_root: "/vol/card".to_string(),
        dest_roots: dests,
        rel_files: vec![],
        project_id: "20260824_X".to_string(),
        card_label: "CARD-001".to_string(),
        camera_code: "CAM_A_ZS".to_string(),
        operator: "张三".to_string(),
        note: String::new(),
        source_volume: "/vol/card".to_string(),
    }
}

#[test]
fn copy_run_needs_a_destination() {
    assert_eq!(CopyRun::start(&options(vec![])).err().unwrap(), "至少需要一个目的地");
}

#[test]
fn copy_run_counts_outcomes() {
    let mut run = CopyRun::start(&options(vec!["/nas/a".to_string(), "/nas/b".to_string()])).unwrap();
    run.record_copied("A001.MP4", 10, "h1", &[Ok(()), Ok(())], &[Ok(()), Ok(())]);
    run.record_copied("A002.MP4", 20, "h2", &[Ok(()), Err("bad".to_string())], &[Ok(())]);
    run.record_read_failure("A003.MP4", 5, "read error");
    let mut resume = Manifest::new("p", "c", "k", "o", "n", "s", vec![]);
    resume.files.push(ManifestFileEntry { path: "A004.MP4".to_string(), size: 7, hash: "h4".to_string(), verified: true });
    let entry = CopyRun::resume_entry(&resume, "A004.MP4").unwrap().clone();
    run.record_skipped(&entry);
    let report = run.finish();
    assert_eq!(report.copied_count, 3);
    assert_eq!(report.skipped_count, 1);
    assert_eq!(report.failed_count, 2);
    assert_eq!(report.verified_count, 3);
    assert_eq!(report.total_bytes, 42);
    assert!(!report.all_verified);
    assert!(report.manifest.completed_at.is_none());
    assert_eq!(report.outcomes[1].errors, vec!["bad"]);
    assert_eq!(report.manifest.files.len(), 4);
}

#[test]
fn copy_run_all_verified_completes_manifest() {
    let mut run = CopyRun::start(&options(vec!["/nas/a".to_string()])).unwrap();
    run.record_copied("A001.MP4", 10, "h1", &[Ok(())], &[Ok(())]);
    let report = run.finish();
    assert!(report.all_verified);
    assert!(report.manifest.completed_at.is_some());
    assert!(report.manifest.all_verified());
}

#[test]
fn manifest_file_names() {
    assert_eq!(manifest_file_name("20260824_101500", "CARD 001/A"), "copy_20260824_101500_CARD001A.json");
}

#[test]
fn run_copy_task_failure_does_not_abort_all() {
    let mut run = CopyRun::start(&options(vec!["good".to_string(), "bad".to_string()])).unwrap();
    let bad = || Err("bad: Not a directory".to_string());
    run.record_copied("a.mp4", 3, "ha", &[Ok(()), bad()], &[Ok(())]);
    run.record_copied("b.mp4", 3, "hb", &[Ok(()), bad()], &[Ok(())]);
    let r = run.finish();
    assert_eq!(r.verified_count, 2);
    assert!(r.failed_count > 0);
    assert!(!r.all_verified);
    assert!(r.manifest.completed_at.is_none());
    assert!(r.outcomes.iter().all(|o| !o.skipped && o.verified && !o.errors.is_empty()));
    assert_eq!(r.manifest.card_label, "CARD-001");
    assert_eq!(r.manifest.camera_code, "CAM_A_ZS");
    assert_eq!(r.manifest.operator, "张三");
    assert_eq!(r.manifest.source_volume, "/vol/card");
}

#[test]
fn resume_skips_only_verified_files_present_everywhere() {
    let mut resume = Manifest::new("p", "c", "k", "o", "n", "s", vec![]);
    resume.files.push(ManifestFileEntry { path: "A.MP4".to_string(), size: 1, hash: "h0".to_string(), verified: false });
    resume.files.push(ManifestFileEntry { path: "A.MP4".to_string(), size: 2, hash: "h1".to_string(), verified: true });
    let e = CopyRun::resume_skip(Some(&resume), "A.MP4", &[true, true]).unwrap();
    assert_eq!(e.hash, "h1");
    assert!(CopyRun::resume_skip(Some(&resume), "A.MP4", &[true, false]).is_none());
    assert!(CopyRun::resume_skip(Some(&resume), "B.MP4", &[true, true]).is_none());
    assert!(CopyRun::resume_skip(None, "A.MP4", &[true, true]).is_none());
}

#[test]
fn read_back_only_written_destinations() {
    let writes = vec![Ok(()), Err("full".to_string()), Ok(())];
    assert_eq!(readback_targets(&writes), vec![0, 2]);
    assert!(readback_targets(&[]).is_empty());
}

#[test]
fn manifest_stamps_are_rfc3339() {
    let m = Manifest::new("p", "c", "k", "o", "n", "s", vec![]);
    let t = m.started_at.as_bytes();
    assert!(t.len() >= 19);
    assert_eq!((t[4], t[7], t[10], t[13], t[16]), (b'-', b'-', b'T', b':', b':'));
    assert!(chrono::DateTime::parse_from_rfc3339(&m.started_at).is_ok());
    let name = ocard::manifest::manifest_file_name_now("CARD 1");
    assert!(name.starts_with("copy_") && name.ends_with(".json"));
    let stamp = &name.as_bytes()[5..20];
    assert!(stamp[..8].iter().all(|b| b.is_ascii_digit()) && stamp[8] == b'_' && stamp[9..].iter().all(|b| b.is_ascii_digit()));
}
