use ocard::text::{parse_u64, split_chars};
use ocard::datetime::DateTime;
use ocard::naming::{
    camera_code, infer_time_slot, project_id, project_id_on, sanitize_filename, select_folders,
    time_slot_folder, validate_final_video_name, workflow_a_folders, workflow_b_folders,
};

#[test]
fn sanitize_filters_windows_illegal_chars() {
    assert_eq!(sanitize_filename("a<b>c:d\"e/f\\g|h?i*j"), "abcdefghij");
}

#[test]
fn sanitize_trims_dots_and_spaces() {
    assert_eq!(sanitize_filename("folder.  "), "folder");
    assert_eq!(sanitize_filename("  hello  "), "hello");
}

#[test]
fn sanitize_reserved_names() {
    assert_eq!(sanitize_filename("CON"), "_CON");
    assert_eq!(sanitize_filename("con.txt"), "_con.txt");
    assert_eq!(sanitize_filename("NUL"), "_NUL");
    assert_eq!(sanitize_filename("正常文件"), "正常文件");
}

#[test]
fn sanitize_empty_and_control_chars() {
    assert_eq!(sanitize_filename(""), "_");
    assert_eq!(sanitize_filename("..."), "_");
    assert_eq!(sanitize_filename("a\u{7}b\tc"), "abc");
    assert_eq!(sanitize_filename("lpt1.log"), "_lpt1.log");
    assert_eq!(sanitize_filename("COM10"), "COM10");
}

#[test]
fn camera_code_format() {
    assert_eq!(camera_code("DJI Ronin 4D", "B", "ZS"), "DJIRONIN4D_B_ZS");
    assert_eq!(camera_code("Sony A7M4", "a", "小李"), "SONYA7M4_A_DIT");
    assert_eq!(camera_code("Sony A7M4", "", "ZS"), "SONYA7M4_X_ZS");
}

#[test]
fn camera_code_defaults_all_blank() {
    assert_eq!(camera_code("", "", ""), "CAM_X_DIT");
}

#[test]
fn project_id_format() {
    let id = project_id("20260824", "某活动");
    assert_eq!(id, "20260824_某活动");
    let id2 = project_id("bad", "x");
    assert_eq!(id2.len(), 8 + 1 + 1);
    assert!(id2.starts_with("20"));
}

#[test]
fn project_id_on_uses_given_day_for_bad_dates() {
    assert_eq!(project_id_on("2026", "Y", "20250101"), "20250101_Y");
    assert_eq!(project_id_on("20260824", "a/b", "20250101"), "20260824_ab");
}

#[test]
fn workflow_a_template_order() {
    let f = workflow_a_folders();
    assert_eq!(f.len(), 6);
    assert_eq!(f[0], "1. 工程文件");
    assert_eq!(f[1], "2. 原始素材");
    assert_eq!(f[2], "3. 特别素材");
    assert_eq!(f[3], "4. 转码素材");
    assert_eq!(f[4], "5. 文字素材");
    assert_eq!(f[5], "6. 成片");
}

#[test]
fn workflow_b_template_with_categories() {
    let f = workflow_b_folders(&["人像".to_string(), "风景".to_string()]);
    assert_eq!(f, vec!["1. 待分类", "2. 人像", "3. 风景", "4. 精选", "5. 其他"]);
    assert_eq!(select_folders(), vec!["待修", "已修"]);
}

#[test]
fn workflow_b_template_without_categories() {
    let f = workflow_b_folders(&[]);
    assert_eq!(f, vec!["1. 待分类", "2. 精选", "3. 其他"]);
}

#[test]
fn time_slot_inference() {
    let morning = DateTime::new(2026, 1, 1, 9, 30, 0).unwrap();
    assert_eq!(infer_time_slot(&morning), "0101上午");
    let afternoon = DateTime::new(2026, 12, 31, 14, 0, 0).unwrap();
    assert_eq!(infer_time_slot(&afternoon), "1231下午");
    assert_eq!(time_slot_folder(&morning, "DJIRONIN4D_B_ZS"), "0101上午_DJIRONIN4D_B_ZS");
}

#[test]
fn time_slot_noon_is_afternoon() {
    let noon = DateTime::new(2026, 5, 9, 12, 0, 0).unwrap();
    assert_eq!(infer_time_slot(&noon), "0509下午");
    let before = DateTime::new(2026, 5, 9, 11, 59, 59).unwrap();
    assert_eq!(infer_time_slot(&before), "0509上午");
}

#[test]
fn final_video_name_valid() {
    let v = validate_final_video_name("20260824_活动花絮_4K_交付_V01.mp4").unwrap();
    assert_eq!(v.date, "20260824");
    assert_eq!(v.title, "活动花絮");
    assert_eq!(v.resolution, "4K");
    assert_eq!(v.purpose, "交付");
    assert_eq!(v.version, "V01");
    assert!(!v.is_preview);

    let p = validate_final_video_name("20260824_花絮_720p_预览_V02.mov").unwrap();
    assert!(p.is_preview);

    let f = validate_final_video_name("20260824_花絮_1080p_交付_V03.mp4").unwrap();
    assert!(!f.is_preview);
}

#[test]
fn final_video_name_invalid() {
    assert!(validate_final_video_name("随便一个名字.mp4").is_err());
    assert!(validate_final_video_name("20260824_花絮.mp4").is_err());
    assert!(validate_final_video_name("2026_花絮_4K_交付_V01.mp4").is_err());
    assert!(validate_final_video_name("20260824_花絮_4K_交付.mp4").is_err());
}

#[test]
fn final_video_name_lazy_title_and_error_text() {
    let v = validate_final_video_name("20260824_a_b_HD_c_d_V7").unwrap();
    assert_eq!(v.title, "a_b");
    assert_eq!(v.resolution, "HD");
    assert_eq!(v.purpose, "c_d");
    assert_eq!(v.version, "V7");
    let e = validate_final_video_name("x").unwrap_err();
    assert_eq!(
        e,
        "命名不符合规范：应形如 时间日期_片名_分辨率_用途_版本（如 20260824_花絮_4K_交付_V01）"
    );
}

#[test]
fn text_parsing_helpers() {
    let c: Vec<char> = "18446744073709551615".chars().collect();
    assert_eq!(parse_u64(&c), Some(u64::MAX));
    let plus: Vec<char> = "+7".chars().collect();
    assert_eq!(parse_u64(&plus), Some(7));
    for bad in ["", "+", "-1", "1 ", "18446744073709551616"] {
        let v: Vec<char> = bad.chars().collect();
        assert_eq!(parse_u64(&v), None, "{bad}");
    }
    let s: Vec<char> = "a||b|".chars().collect();
    let parts: Vec<String> = split_chars(&s, '|').into_iter().map(|p| p.into_iter().collect()).collect();
    assert_eq!(parts, vec!["a", "", "b", ""]);
}

#[test]
fn sanitized_names_are_portable() {
    for raw in ["a<b>:c", "\u{1}\u{2}", "  .  ", "x|y?z*", "正常", "COM1.txt", "tab\there"] {
        let s = sanitize_filename(raw);
        assert!(!s.is_empty());
        assert!(s.chars().all(|c| !"<>:\"/\\|?*".contains(c) && !c.is_control()), "{s:?}");
    }
}

#[test]
fn camera_codes_use_letters_digits_and_two_separators() {
    for (m, p, o) in [("Canon R5", "c", "王五"), ("", "", ""), ("ß-model", "ü", "a_b")] {
        let code = camera_code(m, p, o);
        assert!(code.chars().all(|c| c.is_ascii_alphanumeric() || c == '_'), "{code}");
        assert_eq!(code.split('_').count(), 3);
        assert!(code.split('_').all(|part| !part.is_empty()));
    }
}

#[test]
fn sanitize_drops_dots_left_by_trim() {
    assert_eq!(sanitize_filename("a.\u{3000}"), "a");
    assert_eq!(sanitize_filename("a\u{3000}.\u{3000}"), "a");
    assert_eq!(sanitize_filename(".\u{3000}"), "_");
    assert_eq!(sanitize_filename("folder.  "), "folder");
}

#[test]
fn final_video_name_accepts_unicode_digits() {
    // `\d` is Unicode-aware: Arabic-Indic digits count as a date.
    assert!(validate_final_video_name("٢٠٢٦٠٨٢٤_花絮_4K_交付_V01.mp4").is_ok());
    assert!(validate_final_video_name("20260824_花絮_4K_交付_Vx.mp4").is_err());
}
