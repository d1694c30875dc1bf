use ocard::device_store::DeviceRegistry;

#[test]
fn add_camera_auto_code() {
    let mut reg = DeviceRegistry::default();
    let cam = reg.add_camera("DJI Ronin 4D", "b", "ZS", None).unwrap();
    assert_eq!(cam.code, "DJIRONIN4D_B_ZS");
    assert_eq!(reg.cameras.len(), 1);
}

#[test]
fn add_camera_rejects_bad_position() {
    let mut reg = DeviceRegistry::default();
    assert!(reg.add_camera("X", "AB", "ZS", None).is_err());
    assert!(reg.add_camera("X", "1", "ZS", None).is_err());
    assert!(reg.add_camera("", "A", "ZS", None).is_err());
}

#[test]
fn add_camera_rejects_duplicate_code() {
    let mut reg = DeviceRegistry::default();
    reg.add_camera("Sony A7M4", "A", "ZS", None).unwrap();
    let r = reg.add_camera("Sony A7M4", "a", "ZS", None);
    assert!(r.is_err());
}

#[test]
fn add_camera_error_messages_and_ids() {
    let mut reg = DeviceRegistry::default();
    assert_eq!(reg.add_camera("X", "AB", "ZS", None).unwrap_err(), "机位必须是单个字母 A–Z");
    assert_eq!(reg.add_camera("  ", "A", "ZS", None).unwrap_err(), "型号不能为空");
    assert_eq!(reg.add_camera("X", "A", " ", None).unwrap_err(), "使用者代称不能为空");
    let a = reg.add_camera(" Canon R5 ", " c ", " WY ", Some("n".to_string())).unwrap();
    assert_eq!(a.id, "cam-1");
    assert_eq!(a.model, "Canon R5");
    assert_eq!(a.position, "C");
    assert_eq!(a.operator, "WY");
    assert_eq!(a.note, Some("n".to_string()));
    assert_eq!(reg.add_camera("Canon R5", "C", "WY", None).unwrap_err(), "相机编码已存在：CANONR5_C_WY");
    let b = reg.add_camera("Canon R5", "D", "WY", None).unwrap();
    assert_eq!(b.id, "cam-2");
    assert_eq!(reg.camera_by_code("CANONR5_D_WY").unwrap().id, "cam-2");
    assert!(reg.camera_by_code("NONE").is_none());
}

#[test]
fn card_linked_to_camera() {
    let mut reg = DeviceRegistry::default();
    let cam = reg.add_camera("Sony A7M4", "A", "ZS", None).unwrap();
    let card = reg.add_card("CARD-001", &cam.id, None).unwrap();
    assert_eq!(card.camera_id, cam.id);
    assert_eq!(reg.card_by_label("CARD-001").unwrap().label, "CARD-001");
}

#[test]
fn card_rejects_unknown_camera_and_duplicate() {
    let mut reg = DeviceRegistry::default();
    assert!(reg.add_card("CARD-001", "nope", None).is_err());
    let cam = reg.add_camera("Sony A7M4", "A", "ZS", None).unwrap();
    reg.add_card("CARD-001", &cam.id, None).unwrap();
    assert!(reg.add_card("CARD-001", &cam.id, None).is_err());
}

#[test]
fn card_error_messages_and_ids() {
    let mut reg = DeviceRegistry::default();
    assert_eq!(reg.add_card("  ", "cam-1", None).unwrap_err(), "标签不能为空");
    assert_eq!(reg.add_card("CARD-001", "cam-1", None).unwrap_err(), "关联相机不存在");
    let cam = reg.add_camera("Sony A7M4", "A", "ZS", None).unwrap();
    let c = reg.add_card(" CARD-001 ", &cam.id, None).unwrap();
    assert_eq!(c.id, "card-1");
    assert_eq!(c.label, "CARD-001");
    assert_eq!(reg.add_card("CARD-001", &cam.id, None).unwrap_err(), "存储卡标签已存在：CARD-001");
    assert!(reg.card_by_label("CARD-002").is_none());
}

#[test]
fn registry_file_path() {
    assert_eq!(DeviceRegistry::path("/p/.ocard"), "/p/.ocard/devices.json");
}

#[test]
fn registry_keeps_codes_and_labels_unique() {
    let mut reg = DeviceRegistry::default();
    let a = reg.add_camera("Sony A7M4", "A", "ZS", None).unwrap();
    let b = reg.add_camera("Sony A7M4", "B", "ZS", None).unwrap();
    assert!(reg.add_camera("sony a7m4", "a", "zs", None).is_err());
    reg.add_card("CARD-001", &a.id, None).unwrap();
    reg.add_card("CARD-002", &b.id, None).unwrap();
    assert!(reg.add_card("CARD-001", &b.id, None).is_err());
    let codes: Vec<&str> = reg.cameras.iter().map(|c| c.code.as_str()).collect();
    assert_eq!(codes, vec!["SONYA7M4_A_ZS", "SONYA7M4_B_ZS"]);
    assert!(reg.cards.iter().all(|c| reg.cameras.iter().any(|cam| cam.id == c.camera_id)));
}
