use ocard::audit_log::{is_blank_line, AuditEntry, AuditLog};
use ocard::sorting::stable_sort_by_time;

#[test]
fn merge_multiple_workstations_sorted() {
    let log_a = AuditLog::new("/p/.ocard/logs", "ws-a");
    let a = log_a.log("张三", "copy", "CARD-001", None);
    let b = AuditEntry {
        timestamp: "2099-01-01T00:00:00+00:00".to_string(),
        machine_id: "ws-b".to_string(),
        operator: "李四".to_string(),
        action: "package".to_string(),
        target: "精选".to_string(),
        detail: None,
    };
    let all = stable_sort_by_time(vec![b, a]);
    assert_eq!(all.len(), 2);
    assert_eq!(all[0].machine_id, "ws-a");
    assert_eq!(all[1].machine_id, "ws-b");
    let machines = AuditLog::known_machines(&all);
    assert!(machines.contains(&"ws-a".to_string()));
    assert!(machines.contains(&"ws-b".to_string()));
}

#[test]
fn log_entries_carry_workstation() {
    let log = AuditLog::new("/p/.ocard/logs", "ws-001");
    let e = log.log("张三", "copy", "CARD-001", Some("2. 原始素材".to_string()));
    assert_eq!(e.machine_id, "ws-001");
    assert_eq!(e.operator, "张三");
    assert_eq!(e.action, "copy");
    assert_eq!(e.target, "CARD-001");
    assert_eq!(e.detail, Some("2. 原始素材".to_string()));
    assert!(!e.timestamp.is_empty());
    assert_eq!(log.own_file(), "/p/.ocard/logs/ws-001.log");
}

#[test]
fn sort_by_time_is_stable() {
    let mk = |t: &str, m: &str| AuditEntry {
        timestamp: t.to_string(),
        machine_id: m.to_string(),
        operator: String::new(),
        action: String::new(),
        target: String::new(),
        detail: None,
    };
    let v = vec![
        mk("2026-08-24T12:00:00+08:00", "x"),
        mk("2026-08-24T03:30:00+00:00", "y"),
        mk("2026-08-24T04:00:00Z", "z"),
        mk("2026-08-24T09:00:00+08:00", "w"),
    ];
    let s = stable_sort_by_time(v);
    let ids: Vec<&str> = s.iter().map(|e| e.machine_id.as_str()).collect();
    assert_eq!(ids, vec!["w", "y", "x", "z"]);
    assert_eq!(AuditLog::known_machines(&s), vec!["w", "x", "y", "z"]);
}

#[test]
fn known_machines_dedups() {
    let mk = |m: &str| AuditEntry {
        timestamp: String::new(),
        machine_id: m.to_string(),
        operator: String::new(),
        action: String::new(),
        target: String::new(),
        detail: None,
    };
    assert_eq!(AuditLog::known_machines(&[mk("b"), mk("a"), mk("b")]), vec!["a", "b"]);
    assert!(AuditLog::known_machines(&[]).is_empty());
}

#[test]
fn blank_lines_are_skipped() {
    assert!(is_blank_line(""));
    assert!(is_blank_line(" \t "));
    assert!(!is_blank_line("not-json"));
}

#[test]
fn merge_orders_by_instant_across_offsets() {
    let mk = |t: &str, m: &str| AuditEntry {
        timestamp: t.to_string(),
        machine_id: m.to_string(),
        operator: String::new(),
        action: String::new(),
        target: String::new(),
        detail: None,
    };
    // 10:00 at +08:00 is 02:00 UTC, before 03:00 UTC, though its text sorts later.
    let v = vec![mk("2026-08-24T03:00:00+00:00", "utc"), mk("2026-08-24T10:00:00+08:00", "cst"), mk("garbled", "bad")];
    let s = stable_sort_by_time(v);
    let ids: Vec<&str> = s.iter().map(|e| e.machine_id.as_str()).collect();
    assert_eq!(ids, vec!["bad", "cst", "utc"]);
}
