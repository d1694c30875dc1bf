use ocard::config::{
    config_base_dir, config_file_path, default_machine_id, sanitize_host, sanitize_slug,
    AppConfig,
};
use ocard::transcode::Platform;

#[test]
fn config_load_missing_returns_default() {
    let cfg = AppConfig::with_machine_id(default_machine_id(None, Some("host"), 7));
    assert!(!cfg.machine_id.is_empty());
    assert_eq!(cfg.operator, "DIT");
    assert_eq!(cfg.nas_root, "");
}

#[test]
fn machine_id_stable_and_sanitized() {
    let a = default_machine_id(Some("My PC!"), None, 1);
    let b = default_machine_id(Some("My PC!"), None, 2);
    assert_ne!(a, b);
    assert!(a.chars().all(|c| c.is_ascii_alphanumeric() || c == '-'));
    assert!(a.starts_with("MyPC-"));
}

#[test]
fn machine_id_suffix_and_fallback_host() {
    assert_eq!(default_machine_id(None, None, 0), format!("ws-{:04x}", scramble(0)));
    assert_eq!(default_machine_id(Some(""), Some("h"), 0), format!("-{:04x}", scramble(0)));
    assert_eq!(sanitize_host("a.b_c-d0123456789xyz"), "abc-d0123456789x");
    assert_eq!(sanitize_slug("CARD 001/é_x"), "CARD001_x");
}

fn scramble(nanos: u32) -> u32 {
    let mut x = nanos ^ 0x9E37_79B9;
    x ^= x << 13;
    x ^= x >> 17;
    x ^= x << 5;
    x
}

#[test]
fn config_paths_per_platform() {
    assert_eq!(config_base_dir(Platform::Windows, Some("C:\\AppData"), Some("/h"), None), Some("C:\\AppData".to_string()));
    assert_eq!(config_base_dir(Platform::MacOs, None, Some("/Users/u"), None), Some("/Users/u/Library/Application Support".to_string()));
    assert_eq!(config_base_dir(Platform::OtherUnix, None, Some("/home/u"), None), Some("/home/u/.config".to_string()));
    assert_eq!(config_base_dir(Platform::OtherUnix, None, Some("/home/u"), Some("/x")), Some("/x".to_string()));
    assert_eq!(config_base_dir(Platform::OtherUnix, None, None, None), None);
    assert_eq!(config_file_path(Some("/home/u/.config")), "/home/u/.config/ocard/config.json");
    assert_eq!(config_file_path(None), "./ocard/config.json");
}

#[test]
fn settings_form_keeps_blank_fields() {
    let mut cfg = AppConfig::with_machine_id("ws-1".to_string());
    cfg.apply_settings("  /Volumes/NAS ", "   ");
    assert_eq!(cfg.nas_root, "/Volumes/NAS");
    assert_eq!(cfg.operator, "DIT");
    cfg.apply_settings("", " 张三 ");
    assert_eq!(cfg.nas_root, "/Volumes/NAS");
    assert_eq!(cfg.operator, "张三");
}
