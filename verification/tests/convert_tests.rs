use media_jobs::convert::{
    check_conversion_request, conversion_failure_message, conversion_output_path, ffmpeg_args,
    get_available_formats, get_extension, is_video_file, plan_conversion, should_delete_original,
    ConversionFormat, ConversionRefusal,
};
use media_jobs::export::{csv_field, export_csv, export_json};
use media_jobs::model::{DownloadResponse, DownloadStatus, DownloadType};

fn completed_job(path: &str) -> DownloadResponse {
    let mut job = DownloadResponse::new(
        String::from("https://youtube.com/watch?v=v"),
        DownloadType::Video,
    );
    job.set_status(DownloadStatus::Completed, String::from("done"));
    job.file_path = Some(String::from(path));
    job
}

#[test]
fn test_format_parsing() {
    assert!(matches!(ConversionFormat::from_str("mp3"), Some(ConversionFormat::Mp3)));
    assert!(matches!(ConversionFormat::from_str("MP4"), Some(ConversionFormat::Mp4)));
    assert!(matches!(ConversionFormat::from_str("WebM"), Some(ConversionFormat::WebM)));
    assert!(ConversionFormat::from_str("ogg").is_none());
    assert!(ConversionFormat::from_str("").is_none());
}

#[test]
fn test_format_classification() {
    assert!(ConversionFormat::Mp4.is_video());
    assert!(!ConversionFormat::Mp4.is_audio());
    assert!(ConversionFormat::Flac.is_audio());
    assert_eq!(ConversionFormat::M4A.extension(), "m4a");
}

#[test]
fn test_get_extension() {
    assert_eq!(get_extension("/dl/Clip.MP4").as_deref(), Some("mp4"));
    assert_eq!(get_extension("song.flac").as_deref(), Some("flac"));
    assert_eq!(get_extension("noext").as_deref(), None);
    assert_eq!(get_extension("/dl/.hidden").as_deref(), None);
    assert!(is_video_file("a.mkv"));
    assert!(!is_video_file("a.mp3"));
}

#[test]
fn test_available_formats() {
    let video = get_available_formats("clip.mp4");
    assert_eq!(video.len(), 4);
    assert!(matches!(video[0], ConversionFormat::Mp4));
    assert!(matches!(video[3], ConversionFormat::Mp3));
    let audio = get_available_formats("song.mp3");
    assert_eq!(audio.len(), 5);
    assert!(matches!(audio[0], ConversionFormat::Mp3));
}

#[test]
fn test_mp4_to_mp3_output_path() {
    let out = conversion_output_path("/dl/clip.mp4", ConversionFormat::Mp3);
    assert_eq!(out, "/dl/clip.mp3");
    assert!(out.ends_with(".mp3"));
}

#[test]
fn test_same_format_output_is_suffixed() {
    let input = "/dl/clip.mp4";
    let out = conversion_output_path(input, ConversionFormat::Mp4);
    assert_eq!(out, "/dl/clip_mp4.mp4");
    assert_ne!(out, input);
}

#[test]
fn test_keep_original_decision() {
    assert!(should_delete_original(false, "/dl/a.mp4", "/dl/a.mp3"));
    assert!(!should_delete_original(true, "/dl/a.mp4", "/dl/a.mp3"));
    assert!(!should_delete_original(false, "/dl/a.mp4", "/dl/a.mp4"));
}

#[test]
fn test_conversion_prechecks() {
    let mut pending = DownloadResponse::new(
        String::from("https://youtube.com/watch?v=p"),
        DownloadType::Video,
    );
    assert!(matches!(
        check_conversion_request(&pending, "mp3"),
        Err(ConversionRefusal::NotCompleted)
    ));

    pending.set_status(DownloadStatus::Completed, String::from("done"));
    assert!(matches!(
        check_conversion_request(&pending, "mp3"),
        Err(ConversionRefusal::NoFilePath)
    ));

    pending.file_path = Some(String::from("clip.mp4"));
    assert!(matches!(
        check_conversion_request(&pending, "exe"),
        Err(ConversionRefusal::UnsupportedFormat)
    ));
    let (fmt, path) = check_conversion_request(&pending, "mp3").unwrap();
    assert!(matches!(fmt, ConversionFormat::Mp3));
    assert_eq!(path, "clip.mp4");
}

#[test]
fn test_plan_conversion_end_to_end() {
    let job = completed_job("clip.mp4");
    let plan = plan_conversion(&job, "mp3", "/downloads", false).unwrap();
    assert_eq!(plan.input_path, "/downloads/clip.mp4");
    assert_eq!(plan.output_path, "/downloads/clip.mp3");
    assert!(plan.delete_input_after);

    let args: Vec<&str> = plan.args.iter().map(|s| s.as_str()).collect();
    assert_eq!(
        args,
        vec![
            "-i",
            "/downloads/clip.mp4",
            "-y",
            "-map_metadata",
            "0",
            "-vn",
            "-c:a",
            "libmp3lame",
            "-b:a",
            "320k",
            "/downloads/clip.mp3",
            "-hide_banner",
            "-progress",
            "pipe:1",
            "-loglevel",
            "error"
        ]
    );
}

#[test]
fn test_plan_conversion_keep_original() {
    let job = completed_job("/abs/clip.mp4");
    let plan = plan_conversion(&job, "mp4", "/downloads", true).unwrap();
    assert_eq!(plan.input_path, "/abs/clip.mp4");
    assert_eq!(plan.output_path, "/abs/clip_mp4.mp4");
    assert!(!plan.delete_input_after);
}

#[test]
fn test_ffmpeg_args_webm() {
    let args = ffmpeg_args("in.mp4", "in.webm", ConversionFormat::WebM);
    let strs: Vec<&str> = args.iter().map(|s| s.as_str()).collect();
    assert!(strs.contains(&"libvpx-vp9"));
    assert!(strs.contains(&"libopus"));
    assert!(strs.contains(&"-crf"));
}

#[test]
fn test_csv_field_quoting() {
    assert_eq!(csv_field("plain"), "plain");
    assert_eq!(csv_field("a,b"), "\"a,b\"");
    assert_eq!(csv_field("say \"hi\""), "\"say \"\"hi\"\"\"");
    assert_eq!(csv_field("line\nbreak"), "\"line\nbreak\"");
}

#[test]
fn test_export_csv_shape() {
    let mut job = completed_job("clip.mp4");
    job.id = String::from("job-1");
    job.title = Some(String::from("A, Title"));
    let csv = export_csv(&vec![job]);
    let mut lines = csv.lines();
    let header = lines.next().unwrap();
    assert!(header.starts_with("id,url,type,status,progress,message,created_at"));
    let row = lines.next().unwrap();
    assert!(row.starts_with("job-1,https://youtube.com/watch?v=v,video,completed,0,done,"));
    assert!(row.contains("\"A, Title\""));
}

#[test]
fn test_export_json_shape() {
    let mut job = completed_job("clip.mp4");
    job.id = String::from("job-2");
    let json = export_json(&vec![job]);
    assert!(json.starts_with("[{\"id\":\"job-2\",\"status\":\"completed\","));
    assert!(json.ends_with("}]"));
    assert!(json.contains("\"file_path\":\"clip.mp4\""));
    assert!(json.contains("\"tags\":null"));
    assert!(json.contains("\"retry_count\":0"));
}

#[test]
fn test_conversion_failure_diagnostics() {
    assert_eq!(
        conversion_failure_message(Some(1), "unknown encoder 'libx264'"),
        "Conversion failed (exit code 1): unknown encoder 'libx264'"
    );
    assert_eq!(
        conversion_failure_message(None, ""),
        "Conversion failed (exit code -1): "
    );
    let long = "x".repeat(600);
    let msg = conversion_failure_message(Some(69), &long);
    assert!(msg.ends_with(&"x".repeat(500)));
    assert_eq!(msg.len(), "Conversion failed (exit code 69): ".len() + 500);

    let mut job = completed_job("clip.mp4");
    job.start_converting(String::from("converting"));
    job.record_conversion_engine_failure(Some(187), "broken input");
    assert!(matches!(job.status, media_jobs::model::DownloadStatus::Failed));
    assert_eq!(job.message, "Conversion failed (exit code 187): broken input");
    assert!(job.completed_at.is_none());
    assert_eq!(job.file_path.as_deref(), Some("clip.mp4"));
}
