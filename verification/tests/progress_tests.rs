use media_jobs::convert::conversion_percent;
use media_jobs::model::{DownloadStatus, DownloadType, DownloadResponse};
use media_jobs::orchestrator::{apply_download_event, DownloadEvent};
use media_jobs::progress::{
    formater_progression, heuristic_progress, parse_duration_line, parse_out_time_line,
    parse_progress, split_ws,
};

#[test]
fn test_heuristic_ramp() {
    assert_eq!(heuristic_progress(0), 10);
    assert_eq!(heuristic_progress(2), 12);
    assert_eq!(heuristic_progress(30), 50);
    assert_eq!(heuristic_progress(59), 88);
    assert_eq!(heuristic_progress(60), 90);
    assert_eq!(heuristic_progress(100000), 90);
    let mut last = 0;
    for e in 0..120 {
        let p = heuristic_progress(e);
        assert!((10..=90).contains(&p));
        assert!(p >= last);
        last = p;
    }
}

#[test]
fn test_parse_progress_line() {
    let line = "[download]   50% of 100MiB at 1.23MiB/s ETA 00:01";
    assert_eq!(parse_progress(line), Some((52428800, 104857600)));
}

#[test]
fn test_parse_progress_units_and_commas() {
    let line = "[download] 25% of 2GiB at 9MiB/s ETA 03:01";
    assert_eq!(parse_progress(line), Some((536870912, 2147483648)));

    let line = "[download] 10% of 1,024KiB at 1KiB/s ETA 00:01";
    assert_eq!(parse_progress(line), Some((104857, 1048576)));
}

#[test]
fn test_parse_progress_rejects() {
    assert_eq!(parse_progress("plain text"), None);
    assert_eq!(parse_progress("[download] Destination: x.webm"), None);
    assert_eq!(parse_progress("[download] 50% of"), None);
}

#[test]
fn test_progress_clamped_over_hundred() {
    let line = "[download] 250% of 1MiB at 1MiB/s ETA 00:00";
    assert_eq!(parse_progress(line), Some((1048576, 1048576)));
}

#[test]
fn test_split_ws() {
    let toks = split_ws("  a  bb\tccc ");
    assert_eq!(toks, vec![String::from("a"), String::from("bb"), String::from("ccc")]);
}

#[test]
fn test_format_progress_display() {
    assert_eq!(
        formater_progression(52428800, 104857600),
        "[#####.....] 50% (50.0MB / 100.0MB)"
    );
    assert_eq!(formater_progression(0, 0), "[..........] 0% (0.0MB / 0.0MB)");
}

#[test]
fn test_ffmpeg_progress_lines() {
    assert_eq!(parse_duration_line("duration=245.33"), Some(245330000));
    assert_eq!(parse_duration_line("duration=60"), Some(60000000));
    assert_eq!(parse_duration_line("out_time_ms=100"), None);
    assert_eq!(parse_out_time_line("out_time_ms=1500000"), Some(1500000));
    assert_eq!(parse_out_time_line("duration=60"), None);
}

#[test]
fn test_conversion_percent() {
    assert_eq!(conversion_percent(30000000, 60000000), 50);
    assert_eq!(conversion_percent(90000000, 60000000), 100);
    assert_eq!(conversion_percent(0, 60000000), 0);
}

#[test]
fn test_ticker_never_clobbers_terminal_state() {
    let mut job = DownloadResponse::new(
        String::from("https://youtube.com/watch?v=z"),
        DownloadType::Video,
    );
    apply_download_event(&mut job, DownloadEvent::Started);
    assert!(matches!(job.status, DownloadStatus::Downloading));
    assert_eq!(job.progress, 10);

    apply_download_event(&mut job, DownloadEvent::Tick { elapsed: 2 });
    assert_eq!(job.progress, 12);
    apply_download_event(&mut job, DownloadEvent::Tick { elapsed: 4 });
    assert_eq!(job.progress, 15);

    apply_download_event(
        &mut job,
        DownloadEvent::Finished { result: Ok(String::from("clip.mp4")) },
    );
    assert!(matches!(job.status, DownloadStatus::Completed));
    assert_eq!(job.progress, 100);
    assert!(job.completed_at.is_some());
    assert_eq!(job.file_path.as_deref(), Some("clip.mp4"));

    // A late tick finds the job terminal and leaves it alone.
    apply_download_event(&mut job, DownloadEvent::Tick { elapsed: 60 });
    assert!(matches!(job.status, DownloadStatus::Completed));
    assert_eq!(job.progress, 100);
}

#[test]
fn test_failed_run_keeps_diagnostic() {
    let mut job = DownloadResponse::new(
        String::from("https://youtube.com/watch?v=f"),
        DownloadType::Audio,
    );
    apply_download_event(&mut job, DownloadEvent::Started);
    apply_download_event(
        &mut job,
        DownloadEvent::Finished { result: Err(String::from("network unreachable")) },
    );
    assert!(matches!(job.status, DownloadStatus::Failed));
    assert_eq!(job.message, "Download failed: network unreachable");
    assert!(job.completed_at.is_none());
}

#[test]
fn test_completed_at_tracks_status() {
    let mut job = DownloadResponse::new(
        String::from("https://youtube.com/watch?v=c"),
        DownloadType::Video,
    );
    assert!(job.completed_at.is_none());
    job.set_status(DownloadStatus::Completed, String::from("done"));
    assert!(job.completed_at.is_some());
    job.start_converting(String::from("converting"));
    assert!(job.completed_at.is_none());
    assert!(matches!(job.status, DownloadStatus::Converting));
    assert_eq!(job.progress, 0);
    job.finish_conversion_success(String::from("out.mp3"), Some(5), String::from("done"));
    assert!(job.completed_at.is_some());
    assert!(matches!(job.status, DownloadStatus::Completed));
}
