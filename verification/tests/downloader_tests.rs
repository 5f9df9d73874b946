use media_jobs::downloader::{
    build_yt_dlp_command_audio, build_yt_dlp_command_video, destination_from_line,
};

fn has(args: &Vec<String>, s: &str) -> bool {
    args.iter().any(|a| a == s)
}

#[test]
fn downloader_test_windows_only() {
    assert!(true);
}

#[test]
fn downloader_test_not_windows() {
    assert!(true);
}

#[test]
fn downloader_test_build_yt_dlp_command_video_with_all_options() {
    let url = "https://test.url/video";
    let format = "mp4";
    let keep_files = true;
    let download_path = Some("/tmp/downloads");
    let custom_filename = None;
    let cookies_browser = None;

    let args = build_yt_dlp_command_video(
        url,
        format,
        keep_files,
        download_path,
        custom_filename,
        cookies_browser,
    );

    assert!(has(&args, "-P"));
    assert!(args.iter().any(|arg| arg == "/tmp/downloads"));
    assert!(has(&args, url));
    assert!(has(&args, "-k"));
    assert!(has(&args, "-f"));
    assert!(args.iter().any(|arg| arg == "bv*+ba/b"));
    assert!(has(&args, "--merge-output-format"));
    assert!(args.iter().any(|arg| arg == "mp4"));
}

#[test]
fn downloader_test_build_yt_dlp_command_video_minimal() {
    let url = "https://test.url/simple";
    let format = "";
    let keep_files = false;

    let args = build_yt_dlp_command_video(url, format, keep_files, None, None, None);

    assert!(!has(&args, "-P"));
    assert!(has(&args, url));
    assert!(!has(&args, "-k"));
    assert!(!has(&args, "-f"));
}

#[test]
fn downloader_test_build_yt_dlp_command_audio() {
    let url = "https://audio.test";
    let audio_format = "mp3";
    let download_path = Some("/home/user/dl");

    let args = build_yt_dlp_command_audio(url, audio_format, download_path, None, None);

    assert!(has(&args, "-P"));
    assert!(args.iter().any(|arg| arg == "/home/user/dl"));
    assert!(has(&args, "-f"));
    assert!(has(&args, "bestaudio/best"));
    assert!(has(&args, "--extract-audio"));
    assert!(has(&args, "--audio-format"));
    assert!(args.iter().any(|arg| arg == audio_format));
    assert!(has(&args, url));
    assert!(!has(&args, "-o"));
}

#[test]
fn downloader_test_build_yt_dlp_command_with_custom_filename() {
    let url = "https://test.url/video";
    let format = "mp4";
    let keep_files = true;
    let download_path = Some("/tmp/downloads");
    let custom_filename = Some("ma_video_personnalisee");

    let args = build_yt_dlp_command_video(
        url,
        format,
        keep_files,
        download_path,
        custom_filename,
        None,
    );
    assert!(has(&args, "-o"));
    assert!(args.iter().any(|arg| arg == &format!("{}.%(ext)s", "ma_video_personnalisee")));

    let url = "https://audio.test";
    let audio_format = "mp3";
    let download_path = Some("/home/user/dl");
    let custom_filename = Some("mon_audio_personnalise");

    let args = build_yt_dlp_command_audio(url, audio_format, download_path, custom_filename, None);
    assert!(has(&args, "-o"));
    assert!(args.iter().any(|arg| arg == &format!("{}.%(ext)s", "mon_audio_personnalise")));
}

#[test]
fn test_build_yt_dlp_command_with_cookies() {
    let url = "https://test.url/video";
    let format = "mp4";
    let keep_files = false;
    let download_path = Some("/tmp/downloads");
    let cookies_browser = Some("chrome");

    let args = build_yt_dlp_command_video(
        url,
        format,
        keep_files,
        download_path,
        None,
        cookies_browser,
    );
    assert!(has(&args, "--cookies-from-browser"));
    assert!(has(&args, "chrome"));

    let args = build_yt_dlp_command_audio(url, "mp3", download_path, None, cookies_browser);
    assert!(has(&args, "--cookies-from-browser"));
    assert!(has(&args, "chrome"));
}

#[test]
fn test_destination_from_line() {
    assert_eq!(
        destination_from_line("[download] Destination: clip.f251.webm"),
        Some(String::from("clip.f251.webm"))
    );
    assert_eq!(
        destination_from_line("[ExtractAudio] Destination: song.mp3  "),
        Some(String::from("song.mp3"))
    );
    assert_eq!(destination_from_line("[download]   50% of 100MiB"), None);
}

#[test]
fn test_instrumental_plan() {
    let plan = media_jobs::downloader::plan_instrumental_extraction("/dl/song.mp3");
    let args: Vec<&str> = plan.args.iter().map(|s| s.as_str()).collect();
    assert_eq!(
        args,
        vec!["separate", "-p", "spleeter:2stems", "-o", "/dl/", "/dl/song.mp3"]
    );
    assert_eq!(plan.output_dir, "/dl/song");
    assert_eq!(plan.raw_instrumental, "/dl/song/accompaniment.wav");
    assert_eq!(plan.vocals, "/dl/song/vocals.wav");
    assert_eq!(plan.final_path, "/dl/song_instrumental.wav");
}

#[test]
fn test_playlist_flag() {
    let args = media_jobs::downloader::video_download_args(
        "https://test.url/video",
        "mp4",
        false,
        Some("/dl"),
        None,
        None,
        false,
    );
    assert_eq!(&args[..3], &["-P", "/dl", "--no-playlist"]);

    let args = media_jobs::downloader::video_download_args(
        "https://test.url/video",
        "mp4",
        false,
        Some("/dl"),
        None,
        None,
        true,
    );
    assert!(!args.iter().any(|a| a == "--no-playlist"));

    let args = media_jobs::downloader::audio_download_args(
        "https://audio.test",
        "mp3",
        None,
        None,
        None,
        false,
    );
    assert_eq!(args[0], "--no-playlist");
    assert!(args.iter().any(|a| a == "--extract-audio"));
}
