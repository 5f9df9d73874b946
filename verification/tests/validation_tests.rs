use media_jobs::validation::{domain_allowed, url_format_ok, validate_url};

#[test]
fn test_valid_youtube_url() {
    assert!(validate_url("https://www.youtube.com/watch?v=dQw4w9WgXcQ").is_ok());
    assert!(validate_url("https://youtu.be/dQw4w9WgXcQ").is_ok());
}

#[test]
fn test_invalid_scheme() {
    assert!(validate_url("ftp://example.com/file").is_err());
}

#[test]
fn test_empty_url() {
    assert!(validate_url("").is_err());
    assert!(validate_url("   ").is_err());
}

#[test]
fn test_disallowed_domain() {
    assert!(validate_url("https://malicious-site.com/video").is_err());
}

#[test]
fn test_url_too_long() {
    let long_url = format!("https://youtube.com/{}", "a".repeat(2100));
    assert!(validate_url(&long_url).is_err());
}

#[test]
fn test_validation_messages() {
    let e = validate_url("   ").unwrap_err();
    assert_eq!(e.message, "URL cannot be empty");

    let e = validate_url("ftp://example.com/file").unwrap_err();
    assert_eq!(
        e.message,
        "Invalid URL format. Must start with http:// or https://"
    );

    let e = validate_url("https://malicious-site.com/video").unwrap_err();
    assert!(e.message.starts_with("Domain 'malicious-site.com' is not allowed."));

    let long_url = format!("https://youtube.com/{}", "a".repeat(2100));
    let e = validate_url(&long_url).unwrap_err();
    assert_eq!(e.message, "URL is too long (max 2048 characters)");
}

#[test]
fn test_url_accepted_unchanged() {
    let url = "https://music.youtube.com/watch?v=abc";
    assert_eq!(validate_url(url).unwrap(), url);
}

#[test]
fn test_domain_allow_list() {
    assert!(domain_allowed("youtube.com"));
    assert!(domain_allowed("www.youtube.com"));
    assert!(domain_allowed("soundcloud.com"));
    assert!(!domain_allowed("notyoutube.com"));
    assert!(!domain_allowed("youtube.com.evil.example"));
}

#[test]
fn test_url_shape() {
    assert!(url_format_ok("https://youtube.com/x"));
    assert!(!url_format_ok("https:// youtube.com"));
    assert!(!url_format_ok("youtube.com"));
    assert!(!url_format_ok("https://ab cd"));
}
