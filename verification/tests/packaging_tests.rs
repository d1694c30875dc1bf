use chrono::{Datelike, Timelike};
use ocard::datetime::DateTime;
use ocard::media_indexer::MediaItem;
use ocard::packaging::{
    bucket_by_half_day, build_packages, delivery_manifest, numbered_name, package_inputs, plan_delivery,
    upload_list_text, HalfDay, PackageInput,
};

fn input(path: &str, size: u64, dt: Option<&str>) -> PackageInput {
    PackageInput {
        path: path.to_string(),
        name: path.rsplit('/').next().unwrap_or("").to_string(),
        size,
        datetime: dt.and_then(ts),
    }
}

fn ts(s: &str) -> Option<DateTime> {
    chrono::NaiveDateTime::parse_from_str(s, "%Y-%m-%d %H:%M:%S")
        .ok()
        .map(|d| DateTime {
            year: d.year(),
            month: d.month(),
            day: d.day(),
            hour: d.hour(),
            minute: d.minute(),
            second: d.second(),
            nanosecond: d.nanosecond(),
        })
}

fn media(path: &str, size: u64, dt: &str) -> MediaItem {
    MediaItem {
        path: path.to_string(),
        name: path.rsplit('/').next().unwrap_or("").to_string(),
        ext: "jpg".to_string(),
        size,
        modified: String::new(),
        datetime_original: dt.to_string(),
        camera_make: None,
        camera_model: None,
        is_video: false,
    }
}

#[test]
fn package_inputs_read_shooting_times() {
    let items = vec![
        media("/p/a.jpg", 10, "2026-08-24 09:30:00"),
        media("/p/b.jpg", 20, "not a time"),
    ];
    let inputs = package_inputs(&items);
    assert_eq!(inputs.len(), 2);
    assert_eq!(inputs[0].path, "/p/a.jpg");
    assert_eq!(inputs[0].name, "a.jpg");
    assert_eq!(inputs[0].size, 10);
    assert_eq!(inputs[0].datetime, DateTime::new(2026, 8, 24, 9, 30, 0));
    assert_eq!(inputs[1].datetime, None);
}

#[test]
fn half_day_from_time() {
    let am = ts("2026-08-24 09:00:00").unwrap();
    let pm = ts("2026-08-24 13:00:00").unwrap();
    assert_eq!(HalfDay::from_dt(&am), HalfDay::Am);
    assert_eq!(HalfDay::from_dt(&pm), HalfDay::Pm);
    assert_eq!(HalfDay::Am.label(), "上午");
    assert_eq!(HalfDay::Pm.label(), "下午");
}

#[test]
fn bucket_splits_by_date_and_half() {
    let inputs = vec![
        input("/x/1.jpg", 10, Some("2026-08-24 09:00:00")),
        input("/x/2.jpg", 20, Some("2026-08-24 10:00:00")),
        input("/x/3.jpg", 30, Some("2026-08-24 14:00:00")),
        input("/x/4.jpg", 40, Some("2026-08-25 08:00:00")),
        input("/x/5.jpg", 50, None),
    ];
    let buckets = bucket_by_half_day(&inputs);
    let count = |date: &str, half: HalfDay| {
        buckets.iter().find(|b| b.date == date && b.half == half).unwrap().indices.len()
    };
    assert_eq!(buckets.len(), 4);
    assert_eq!(count("20260824", HalfDay::Am), 2);
    assert_eq!(count("20260824", HalfDay::Pm), 1);
    assert_eq!(count("20260825", HalfDay::Am), 1);
    assert_eq!(count("00000000", HalfDay::Am), 1);
}

#[test]
fn buckets_come_in_half_day_order() {
    let inputs = vec![
        input("/x/1.jpg", 1, Some("2026-08-25 15:00:00")),
        input("/x/2.jpg", 1, Some("2026-08-24 13:00:00")),
        input("/x/3.jpg", 1, None),
        input("/x/4.jpg", 1, Some("2026-08-24 08:00:00")),
        input("/x/5.jpg", 1, Some("2026-08-25 16:00:00")),
    ];
    let buckets = bucket_by_half_day(&inputs);
    let keys: Vec<(String, HalfDay, Vec<usize>)> =
        buckets.into_iter().map(|b| (b.date, b.half, b.indices)).collect();
    assert_eq!(
        keys,
        vec![
            ("00000000".to_string(), HalfDay::Am, vec![2]),
            ("20260824".to_string(), HalfDay::Am, vec![3]),
            ("20260824".to_string(), HalfDay::Pm, vec![1]),
            ("20260825".to_string(), HalfDay::Pm, vec![0, 4]),
        ]
    );
}

#[test]
fn build_packages_names_and_sizes() {
    let inputs = vec![
        input("/x/a.jpg", 100, Some("2026-08-24 09:00:00")),
        input("/x/b.jpg", 200, Some("2026-08-24 11:00:00")),
        input("/x/c.jpg", 400, Some("2026-08-24 14:00:00")),
    ];
    let packages = build_packages(&inputs);
    assert_eq!(packages.len(), 2);
    assert_eq!(packages[0].name, "交付_20260824_上午");
    assert_eq!(packages[0].count, 2);
    assert_eq!(packages[0].total_bytes, 300);
    assert_eq!(packages[1].name, "交付_20260824_下午");
    assert_eq!(packages[1].count, 1);
    assert_eq!(packages[0].files, vec!["/x/a.jpg", "/x/b.jpg"]);
}

#[test]
fn run_packaging_requires_inputs() {
    assert!(plan_delivery("/tmp/P", &[], "张三").is_err());
    assert_eq!(plan_delivery("/tmp/P", &[], "张三").unwrap_err(), "没有可打包的文件");
}

#[test]
fn delivery_manifest_totals_and_upload_text() {
    let inputs = vec![
        input("/p/精选/s1.jpg", 6, Some("2026-08-24 09:00:00")),
        input("/p/精选/s2.jpg", 7, Some("2026-08-24 14:00:00")),
    ];
    let m = delivery_manifest("/nas/20260824_活动", &inputs, "张三", "T".to_string()).unwrap();
    assert_eq!(m.project_id, "20260824_活动");
    assert_eq!(m.operator, "张三");
    assert_eq!(m.created_at, "T");
    assert_eq!(m.packages.len(), 2);
    assert_eq!(m.total_files, 2);
    assert_eq!(m.total_bytes, 13);
    let text = upload_list_text(&m);
    assert_eq!(
        text,
        "交付清单 - 20260824_活动（T）\n共 2 个包，2 个文件，13 字节\n\n\
         📦 交付_20260824_上午（1 张，6 字节）\n  - /p/精选/s1.jpg\n\n\
         📦 交付_20260824_下午（1 张，7 字节）\n  - /p/精选/s2.jpg\n\n"
    );
    let now = plan_delivery("/nas/20260824_活动", &inputs, "张三").unwrap();
    assert_eq!(now.packages, m.packages);
    assert!(!now.created_at.is_empty());
}

#[test]
fn numbered_names_for_conflicts() {
    assert_eq!(numbered_name("x.jpg", 1), "x_1.jpg");
    assert_eq!(numbered_name("a.b.c", 12), "a.b_12.c");
    assert_eq!(numbered_name("noext", 2), "noext_2");
    assert_eq!(numbered_name(".hidden", 3), ".hidden_3");
}

#[test]
fn packaging_is_deterministic_and_complete() {
    let inputs = vec![
        input("/x/1.jpg", 5, Some("2026-08-25 15:00:00")),
        input("/x/2.jpg", 6, None),
        input("/x/3.jpg", 7, Some("2026-08-24 08:00:00")),
        input("/x/4.jpg", 8, Some("2026-08-25 16:00:00")),
    ];
    let a = build_packages(&inputs);
    let b = build_packages(&inputs);
    assert_eq!(a, b);
    assert_eq!(a.iter().map(|p| p.count).sum::<u64>(), 4);
    assert_eq!(a.iter().map(|p| p.total_bytes).sum::<u64>(), 26);
    let names: Vec<&str> = a.iter().map(|p| p.name.as_str()).collect();
    assert_eq!(names, vec!["交付_00000000_上午", "交付_20260824_上午", "交付_20260825_下午"]);
}
