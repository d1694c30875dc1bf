use ocard::manifest::{Manifest, ManifestFileEntry};
use ocard::project_store::{is_counted_media_ext, Project, ProjectSummary};
use ocard::sorting::stable_sort_by_key;

#[test]
fn create_workflow_a_project() {
    let p = Project::create("20260824", "某活动", "A", &[], false).unwrap();
    assert_eq!(p.id, "20260824_某活动");
    let folders = p.folders_to_create();
    for f in ["1. 工程文件", "2. 原始素材", "3. 特别素材", "4. 转码素材", "5. 文字素材", "6. 成片"] {
        assert!(folders.contains(&f.to_string()), "缺少 {f}");
    }
    assert!(folders.contains(&".ocard/manifests".to_string()));
    assert!(folders.contains(&".ocard/logs".to_string()));
    assert!(folders.contains(&".ocard/trash".to_string()));
    assert_eq!(p.workflow, "A");
    assert_eq!(p.date, "20260824");
}

#[test]
fn create_workflow_b_project_with_categories() {
    let p = Project::create("20260824", "人像拍摄", "B", &["人像".to_string(), "风景".to_string()], false).unwrap();
    let folders = p.folders_to_create();
    assert!(folders.contains(&"1. 待分类".to_string()));
    assert!(folders.contains(&"2. 人像".to_string()));
    assert!(folders.contains(&"3. 风景".to_string()));
    assert!(folders.contains(&"4. 精选/待修".to_string()));
    assert!(folders.contains(&"4. 精选/已修".to_string()));
    assert!(folders.contains(&"5. 其他".to_string()));
}

#[test]
fn create_rejects_duplicate_and_bad_input() {
    Project::create("20260824", "X", "A", &[], false).unwrap();
    let dup = Project::create("20260824", "X", "A", &[], true);
    assert!(dup.is_err());
    assert!(Project::create("2026", "Y", "A", &[], false).is_err());
    assert!(Project::create("20260101", "Z", "C", &[], false).is_err());
}

#[test]
fn create_error_messages_in_order() {
    assert_eq!(Project::create("2026", "Y", "C", &[], true).unwrap_err(), "工况必须为 A 或 B");
    assert_eq!(Project::create("2026", "Y", " B ", &[], true).unwrap_err(), "日期必须为 YYYYMMDD");
    assert_eq!(Project::create("20260824", "X", "A", &[], true).unwrap_err(), "项目已存在：20260824_X");
    let p = Project::create("20260824", "a:b", " B ", &["c*d".to_string()], false).unwrap();
    assert_eq!(p.workflow, "B");
    assert_eq!(p.name, "ab");
    assert_eq!(p.categories, vec!["cd"]);
}

#[test]
fn list_all_projects() {
    let a = Project::create("20260824", "A项目", "A", &[], false).unwrap();
    let b = Project::create("20260823", "B项目", "B", &[], false).unwrap();
    let projects = stable_sort_by_key(vec![b, a], true);
    assert_eq!(projects.len(), 2);
    assert_eq!(projects[0].id, "20260824_A项目");
}

#[test]
fn summary_counts_manifests() {
    let p = Project::create("20260824", "X", "A", &[], false).unwrap();
    let mut m = Manifest::new(&p.id, "CARD-1", "CAM_A", "张三", "note", "E:", vec!["2. 原始素材".to_string()]);
    m.files.push(ManifestFileEntry { path: "a.mp4".to_string(), size: 100, hash: "h1".to_string(), verified: true });
    m.finish();
    let sum = p.summary(&[m], 0, false);
    assert_eq!(sum.copied_files, 1);
    assert_eq!(sum.copied_bytes, 100);
    assert!(sum.backup_ok);
}

#[test]
fn summary_classification_progress() {
    let p = Project::create("20260824", "X", "B", &[], false).unwrap();
    let mut m = Manifest::new(&p.id, "CARD-1", "CAM_A", "张三", "", "E:", vec![]);
    for (i, ok) in [true, false, true].iter().enumerate() {
        m.files.push(ManifestFileEntry { path: format!("{i}.jpg"), size: 10, hash: "h".to_string(), verified: *ok });
    }
    let sum = p.summary(&[m.clone()], 1, true);
    assert_eq!(sum.copied_files, 3);
    assert_eq!(sum.classified, 2);
    assert_eq!(sum.unclassified, 1);
    assert!(!sum.backup_ok);
    assert!(sum.packaged);
    let over = p.summary(&[m], 5, false);
    assert_eq!(over.classified, 0);
    let empty = ProjectSummary::default();
    assert_eq!(empty.copied_files, 0);
    assert!(!empty.backup_ok);
}

#[test]
fn category_folder_matching() {
    let p = Project::create("20260824", "X", "B", &["人像".to_string()], false).unwrap();
    assert_eq!(p.category_folder("人像").unwrap(), "2. 人像");
    assert_eq!(p.category_folder("精选").unwrap(), "3. 精选/待修");
    assert_eq!(p.category_folder("其他").unwrap(), "4. 其他");
    assert_eq!(p.category_folder("风景").unwrap_err(), "未找到分类目录：风景");
}

#[test]
fn counted_media_extensions() {
    assert!(is_counted_media_ext("NEF"));
    assert!(is_counted_media_ext("m2ts"));
    assert!(!is_counted_media_ext("heic"));
    assert!(!is_counted_media_ext("txt"));
}
