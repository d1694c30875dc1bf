use ocard::media_indexer::parse_exif_dt;
use ocard::media_indexer::{extract_exif, is_image_ext, is_video_ext, shooting_info, thumbnail_jpeg, thumbnail_path};

#[test]
fn ext_classification() {
    assert!(is_image_ext("JPG"));
    assert!(is_image_ext("arw"));
    assert!(is_video_ext("mp4"));
    assert!(is_video_ext("braw"));
    assert!(!is_video_ext("txt"));
}

#[test]
fn ext_classification_edges() {
    assert!(is_image_ext("HeIc"));
    assert!(!is_image_ext("mp4"));
    assert!(is_video_ext("M4V"));
    assert!(!is_image_ext(""));
    assert!(!is_image_ext(".jpg"));
}

#[test]
fn thumbnail_cache_location() {
    assert_eq!(thumbnail_path("/p/.ocard", "2d06800538d394c2"), "/p/.ocard/thumbs/2d06800538d394c2.jpg");
}

#[test]
fn parse_exif_datetime() {
    assert_eq!(parse_exif_dt("2026:08:24 10:30:00"), Some("2026-08-24 10:30:00".to_string()));
    assert_eq!(parse_exif_dt("2026-08-24 10:30:00"), Some("2026-08-24 10:30:00".to_string()));
    assert_eq!(parse_exif_dt("not a date"), None);
}

#[test]
fn parse_exif_datetime_edges() {
    assert_eq!(parse_exif_dt("  2026:08:24 10:30:00\n"), Some("2026-08-24 10:30:00".to_string()));
    assert_eq!(parse_exif_dt("2026:08:24 10:30:00 extra"), Some("2026-08-24 10:30:00".to_string()));
    assert_eq!(parse_exif_dt("2026:02:30 10:30:00"), None);
    assert_eq!(parse_exif_dt("2026:08:24 23:59:60"), Some("2026-08-24 23:59:60".to_string()));
    assert_eq!(parse_exif_dt(""), None);
}

fn tiff_with_exif(make: &str, model: &str, shot: &str) -> Vec<u8> {
    let fields = [
        exif::Field { tag: exif::Tag::Make, ifd_num: exif::In::PRIMARY, value: exif::Value::Ascii(vec![make.as_bytes().to_vec()]) },
        exif::Field { tag: exif::Tag::Model, ifd_num: exif::In::PRIMARY, value: exif::Value::Ascii(vec![model.as_bytes().to_vec()]) },
        exif::Field {
            tag: exif::Tag::DateTimeOriginal,
            ifd_num: exif::In::PRIMARY,
            value: exif::Value::Ascii(vec![shot.as_bytes().to_vec()]),
        },
    ];
    let mut w = exif::experimental::Writer::new();
    for f in &fields {
        w.push_field(f);
    }
    let mut out = std::io::Cursor::new(Vec::new());
    w.write(&mut out, true).unwrap();
    out.into_inner()
}

#[test]
fn extract_exif_reads_camera_and_time() {
    let bytes = tiff_with_exif("Sony", "ILCE-7M4", "2026:08:24 09:30:00");
    let (dt, make, model) = extract_exif("TIF", Some(&bytes), "2000-01-01 00:00:00").unwrap();
    assert_eq!(dt, "2026-08-24 09:30:00");
    assert_eq!(make, Some("\"Sony\"".to_string()));
    assert_eq!(model, Some("\"ILCE-7M4\"".to_string()));
}

#[test]
fn extract_exif_falls_back_to_file_time() {
    let fallback = "2000-01-01 00:00:00";
    // Not a picture: not read at all.
    assert_eq!(extract_exif("mp4", Some(b"whatever"), fallback), Some((fallback.to_string(), None, None)));
    // A picture that could not be opened, or holds no EXIF.
    assert_eq!(extract_exif("jpg", None, fallback), Some((fallback.to_string(), None, None)));
    assert_eq!(extract_exif("jpg", Some(b"not an image"), fallback), Some((fallback.to_string(), None, None)));
    // EXIF whose time does not read as a time keeps the camera.
    let bytes = tiff_with_exif("Canon", "R5", "sometime");
    let (dt, make, _) = extract_exif("cr2", Some(&bytes), fallback).unwrap();
    assert_eq!(dt, fallback);
    assert_eq!(make, Some("\"Canon\"".to_string()));
}

#[test]
fn shooting_info_passes_camera_on() {
    let info = shooting_info(Some((Some("M".to_string()), None, Some("2026:08:24 09:30:00".to_string()))), "F");
    assert_eq!(info, ("2026-08-24 09:30:00".to_string(), Some("M".to_string()), None));
    assert_eq!(shooting_info(None, "F"), ("F".to_string(), None, None));
}

#[test]
fn thumbnail_jpeg_scales_and_encodes() {
    let img = image::RgbImage::from_pixel(40, 20, image::Rgb([200, 100, 50]));
    let mut png = std::io::Cursor::new(Vec::new());
    image::DynamicImage::ImageRgb8(img).write_to(&mut png, image::ImageFormat::Png).unwrap();
    let jpeg = thumbnail_jpeg("/p/a.png", "\"/p/a.png\"", png.get_ref(), 10).unwrap();
    assert_eq!(&jpeg[..2], &[0xff, 0xd8]);
    let back = image::load_from_memory(&jpeg).unwrap();
    assert_eq!((back.width(), back.height()), (10, 5));
    let err = thumbnail_jpeg("/p/b.png", "\"/p/b.png\"", b"garbage", 10).unwrap_err();
    assert!(err.starts_with("解码失败 \"/p/b.png\": "));
}
