use ocard::transcode::{
    build_ffmpeg_command, encoder_info_from_listing, output_filename, EncoderInfo, JobKind,
    JobStatus, Platform, QualityPreset, RunResult, TranscodeQueue,
};

#[test]
fn preset_labels_and_crf() {
    assert_eq!(QualityPreset::High.label(), "高质量");
    assert_eq!(QualityPreset::High.hevc_crf(), 18);
    assert_eq!(QualityPreset::Balanced.hevc_crf(), 23);
    assert_eq!(QualityPreset::Compact.hevc_crf(), 28);
}

#[test]
fn encoder_preference_falls_back_to_software() {
    let e = EncoderInfo::default();
    assert_eq!(e.preferred_video_codec(Platform::OtherUnix), "libx264");
    assert_eq!(e.preferred_hevc_codec(Platform::OtherUnix), "libx265");
}

#[test]
fn encoder_preference_prefers_hardware() {
    let e = EncoderInfo {
        platform: "linux".to_string(),
        nvenc: true,
        qsv: true,
        vaapi: true,
        ..Default::default()
    };
    assert_eq!(e.preferred_video_codec(Platform::OtherUnix), "h264_nvenc");
    let e_mac = EncoderInfo {
        platform: "macos".to_string(),
        videotoolbox: true,
        ..Default::default()
    };
    assert_eq!(e_mac.preferred_video_codec(Platform::MacOs), "h264_videotoolbox");
}

#[test]
fn encoder_preference_per_platform() {
    let e = EncoderInfo { qsv: true, amf: true, vaapi: true, ..Default::default() };
    assert_eq!(e.preferred_video_codec(Platform::Windows), "h264_qsv");
    assert_eq!(e.preferred_hevc_codec(Platform::Windows), "hevc_qsv");
    assert_eq!(e.preferred_video_codec(Platform::MacOs), "libx264");
    let amd = EncoderInfo { amf: true, vaapi: true, ..Default::default() };
    assert_eq!(amd.preferred_video_codec(Platform::Windows), "h264_amf");
    assert_eq!(amd.preferred_video_codec(Platform::OtherUnix), "h264_vaapi");
    assert_eq!(amd.preferred_hevc_codec(Platform::OtherUnix), "libx265");
}

#[test]
fn build_proxy_command_contains_codec_and_scale() {
    let enc = EncoderInfo::default();
    let cmd = build_ffmpeg_command(
        &JobKind::Proxy { preset: QualityPreset::Balanced },
        "/in/LOG_001.mov",
        "/out/LOG_001_proxy.mp4",
        &enc,
        Platform::OtherUnix,
    );
    assert_eq!(cmd[0], "ffmpeg");
    assert!(cmd.contains(&"-c:v".to_string()));
    assert!(cmd.contains(&"libx264".to_string()));
    assert!(cmd.contains(&"-vf".to_string()));
    assert_eq!(cmd.last().unwrap(), "/out/LOG_001_proxy.mp4");
}

#[test]
fn build_archive_command_hevc10bit() {
    let enc = EncoderInfo::default();
    let cmd = build_ffmpeg_command(
        &JobKind::Archive { preset: QualityPreset::High },
        "/in/a.mov",
        "/out/a_arc.mp4",
        &enc,
        Platform::OtherUnix,
    );
    assert!(cmd.contains(&"libx265".to_string()));
    assert!(cmd.contains(&"yuv420p10le".to_string()));
    assert!(cmd.contains(&"18".to_string()));
}

#[test]
fn output_filename_appends_suffix() {
    assert_eq!(
        output_filename("A001_C001.mov", &JobKind::Proxy { preset: QualityPreset::Balanced }),
        "A001_C001_proxy.mp4"
    );
    assert_eq!(
        output_filename("A001_C001.mov", &JobKind::Archive { preset: QualityPreset::High }),
        "A001_C001_arc.mp4"
    );
}

#[test]
fn output_filename_without_extension() {
    assert_eq!(
        output_filename("clip", &JobKind::Proxy { preset: QualityPreset::Compact }),
        "clip_proxy.mp4"
    );
}

#[test]
fn queue_tracks_status() {
    let mut q = TranscodeQueue::default();
    q.add("/a.mov".to_string(), "/out".to_string(), JobKind::Proxy { preset: QualityPreset::Balanced });
    q.add("/b.mov".to_string(), "/out".to_string(), JobKind::Archive { preset: QualityPreset::High });
    assert_eq!(q.pending(), 2);
    q.jobs[0].status = JobStatus::Running;
    assert_eq!(q.running(), 1);
    q.jobs[0].status = JobStatus::Done;
    assert_eq!(q.done_count(), 1);
}

#[test]
fn queue_job_ids_are_sequential() {
    let mut q = TranscodeQueue::default();
    let a = q.add("/a.mov".to_string(), "/out".to_string(), JobKind::Proxy { preset: QualityPreset::Balanced });
    let b = q.add("/b.mov".to_string(), "/out".to_string(), JobKind::Proxy { preset: QualityPreset::Balanced });
    assert_eq!(a.id, "tj-1");
    assert_eq!(b.id, "tj-2");
    assert_eq!(a.status, JobStatus::Pending);
}

#[test]
fn run_lifecycle_records_outcome() {
    let mut q = TranscodeQueue::default();
    q.add("/in/a.mov".to_string(), "/out".to_string(), JobKind::Archive { preset: QualityPreset::High });
    let no_ffmpeg = EncoderInfo::default();
    assert_eq!(q.begin_run("tj-1", &no_ffmpeg, Platform::OtherUnix).unwrap_err(), "未找到 ffmpeg，请安装后重试");
    assert_eq!(q.begin_run("tj-9", &no_ffmpeg, Platform::OtherUnix).unwrap_err(), "任务不存在");
    let enc = EncoderInfo { ffmpeg_available: true, ..Default::default() };
    let cmd = q.begin_run("tj-1", &enc, Platform::OtherUnix).unwrap();
    assert_eq!(cmd.last().unwrap(), "/out/a_arc.mp4");
    assert_eq!(q.jobs[0].status, JobStatus::Running);
    assert_eq!(q.begin_run("tj-1", &enc, Platform::OtherUnix).unwrap_err(), "任务运行中");
    let done = q.finish_run("tj-1", RunResult::Failed { stderr: "boom".to_string() }).unwrap();
    assert_eq!(done.status, JobStatus::Failed);
    assert_eq!(done.error, Some("boom".to_string()));
}

#[test]
fn encoder_listing_detection() {
    let info = encoder_info_from_listing("linux", Some(" V..... h264_NVENC\n V..... hevc_vaapi"));
    assert!(info.ffmpeg_available);
    assert!(info.nvenc);
    assert!(info.vaapi);
    assert!(!info.qsv);
    let none = encoder_info_from_listing("linux", None);
    assert!(!none.ffmpeg_available);
    assert_eq!(none.platform, "linux");
}
