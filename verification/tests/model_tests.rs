use media_jobs::model::{
    download_type_to_string, status_to_string, string_to_download_type, string_to_status, Config,
    DownloadStatus, DownloadType, ErrorResponse, LogQuery,
};
use media_jobs::orchestrator::{download_event_name, get_logs};

#[test]
fn test_type_names_round_trip() {
    assert_eq!(download_type_to_string(&DownloadType::Video), "video");
    assert_eq!(download_type_to_string(&DownloadType::Audio), "audio");
    assert_eq!(download_type_to_string(&DownloadType::Instrumental), "instrumental");
    assert!(matches!(string_to_download_type("audio"), DownloadType::Audio));
    assert!(matches!(string_to_download_type("unknown"), DownloadType::Video));
}

#[test]
fn test_status_names_round_trip() {
    assert_eq!(status_to_string(&DownloadStatus::Pending), "pending");
    assert_eq!(status_to_string(&DownloadStatus::Converting), "converting");
    assert!(matches!(string_to_status("failed"), DownloadStatus::Failed));
    assert!(matches!(string_to_status("bogus"), DownloadStatus::Pending));
    for st in [
        DownloadStatus::Pending,
        DownloadStatus::Downloading,
        DownloadStatus::Processing,
        DownloadStatus::Completed,
        DownloadStatus::Failed,
        DownloadStatus::Converting,
    ] {
        let name = status_to_string(&st);
        assert!(matches!(string_to_status(&name), _st));
    }
}

#[test]
fn test_error_response_fields() {
    let e = ErrorResponse::new("not_found", String::from("Download not found"));
    assert_eq!(e.error, "not_found");
    assert_eq!(e.message, "Download not found");
}

#[test]
fn test_event_names() {
    assert_eq!(download_event_name(true), "download.completed");
    assert_eq!(download_event_name(false), "download.failed");
}

#[test]
fn test_config_defaults() {
    let c = Config::default();
    assert_eq!(c.default_audio_format, "mp3");
    assert_eq!(c.default_video_format, "mp4");
    assert_eq!(c.download_directory, ".");
    assert!(!c.keep_temporary_files);
    assert_eq!(
        c.audio_formats,
        vec![
            String::from("mp3"),
            String::from("m4a"),
            String::from("flac"),
            String::from("wav")
        ]
    );
}

#[test]
fn test_logs_empty() {
    let entries = get_logs(&LogQuery { level: Some(String::from("info")), limit: Some(10) });
    assert!(entries.is_empty());
}
