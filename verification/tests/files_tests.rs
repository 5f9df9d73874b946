use media_jobs::files::{
    check_servable, get_content_type, parse_range, plan_serve, recovery_candidates, remove_all,
    resolve_artifact_path,
};
use media_jobs::model::{DownloadResponse, DownloadStatus, DownloadType};

#[test]
fn test_parse_range_closed() {
    assert_eq!(parse_range("bytes=500-999", 1000), Some((500, 999)));
}

#[test]
fn test_parse_range_suffix() {
    assert_eq!(parse_range("bytes=-100", 1000), Some((900, 999)));
}

#[test]
fn test_parse_range_open_end() {
    assert_eq!(parse_range("bytes=100-", 1000), Some((100, 999)));
}

#[test]
fn test_parse_range_unsatisfiable() {
    assert_eq!(parse_range("bytes=2000-3000", 1000), None);
}

#[test]
fn test_parse_range_malformed() {
    assert_eq!(parse_range("bytes=abc-def", 1000), None);
    assert_eq!(parse_range("items=0-10", 1000), None);
    assert_eq!(parse_range("bytes=1-2-3", 1000), None);
    assert_eq!(parse_range("bytes=9-1", 1000), None);
    assert_eq!(parse_range("bytes=-2000", 1000), Some((0, 999)));
}

#[test]
fn test_plan_serve_partial() {
    let plan = plan_serve(1000, Some("bytes=500-999"));
    assert_eq!(plan.status, 206);
    assert_eq!(plan.offset, 500);
    assert_eq!(plan.length, 500);
    assert_eq!(plan.content_range.as_deref(), Some("bytes 500-999/1000"));
}

#[test]
fn test_plan_serve_full() {
    let plan = plan_serve(1000, None);
    assert_eq!(plan.status, 200);
    assert_eq!(plan.offset, 0);
    assert_eq!(plan.length, 1000);
    assert!(plan.content_range.is_none());

    let plan = plan_serve(1000, Some("bytes=2000-3000"));
    assert_eq!(plan.status, 200);
    assert_eq!(plan.length, 1000);
}

#[test]
fn test_content_types() {
    assert_eq!(get_content_type("video/clip.mp4"), "video/mp4");
    assert_eq!(get_content_type("clip.WEBM"), "video/webm");
    assert_eq!(get_content_type("a/b/c.mkv"), "video/x-matroska");
    assert_eq!(get_content_type("song.mp3"), "audio/mpeg");
    assert_eq!(get_content_type("song.flac"), "audio/flac");
    assert_eq!(get_content_type("song.opus"), "audio/opus");
    assert_eq!(get_content_type("noext"), "application/octet-stream");
    assert_eq!(get_content_type("odd.xyz"), "application/octet-stream");
}

#[test]
fn test_recovery_candidates_order() {
    let c = recovery_candidates("/dl/clip.f251.webm");
    assert_eq!(c.len(), 14);
    assert_eq!(c[0], "/dl/clip.mp4");
    assert_eq!(c[1], "/dl/clip.webm");
    assert_eq!(c[6], "/dl/clip.flac");
    assert_eq!(c[7], "/dl/clip.f251.mp4");
    assert_eq!(c[13], "/dl/clip.f251.flac");
}

#[test]
fn test_remove_all() {
    assert_eq!(remove_all("a.f251b.f251c", ".f251"), "abc");
    assert_eq!(remove_all("plain", ".f140"), "plain");
}

#[test]
fn test_resolve_artifact_path() {
    assert_eq!(resolve_artifact_path("/dl", "clip.mp4"), "/dl/clip.mp4");
    assert_eq!(resolve_artifact_path("/dl/", "clip.mp4"), "/dl/clip.mp4");
    assert_eq!(resolve_artifact_path("/dl", "/abs/clip.mp4"), "/abs/clip.mp4");
    assert_eq!(resolve_artifact_path("", "clip.mp4"), "clip.mp4");
}

#[test]
fn test_check_servable() {
    let mut job = DownloadResponse::new(
        String::from("https://youtube.com/watch?v=a"),
        DownloadType::Video,
    );
    let r = check_servable(&job);
    assert!(r.is_err());
    let (code, e) = r.unwrap_err();
    assert_eq!(code, 400);
    assert_eq!(e.error, "not_ready");

    job.set_status(DownloadStatus::Completed, String::from("done"));
    let r = check_servable(&job);
    assert!(r.is_err());
    let (code, e) = r.unwrap_err();
    assert_eq!(code, 404);
    assert_eq!(e.error, "no_file");

    job.file_path = Some(String::from("clip.mp4"));
    assert_eq!(check_servable(&job).unwrap(), "clip.mp4");
}
