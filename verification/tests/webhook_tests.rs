use base64::Engine;
use hmac::{KeyInit, Mac};
use media_jobs::model::Webhook;
use media_jobs::orchestrator::build_terminal_event_data;
use media_jobs::store::Store;
use media_jobs::webhook::{
    active_webhooks_for_event, build_webhook_body, mask_webhook_secrets, prepare_delivery,
    sign_payload, verify_signature, webhook_matches,
};

fn independent_signature(secret: &str, body: &str) -> String {
    let mut mac = <hmac::Hmac<sha2::Sha256> as KeyInit>::new_from_slice(secret.as_bytes())
        .expect("any key length works");
    Mac::update(&mut mac, body.as_bytes());
    let tag = Mac::finalize(mac).into_bytes();
    base64::engine::general_purpose::STANDARD.encode(tag)
}

#[test]
fn test_signature_matches_independent_recomputation() {
    let body = "{\"event_type\":\"download.completed\",\"timestamp\":5,\"data\":{}}";
    let sig = sign_payload("s3cr3t", body);
    assert_eq!(sig, independent_signature("s3cr3t", body));
    assert!(verify_signature("s3cr3t", body, &sig));
    assert!(!verify_signature("other", body, &sig));
    assert!(!verify_signature("s3cr3t", "{}", &sig));
}

#[test]
fn test_webhook_body_exact() {
    let body = build_webhook_body("download.completed", 1700000000123, "{\"x\":1}");
    assert_eq!(
        body,
        "{\"event_type\":\"download.completed\",\"timestamp\":1700000000123,\"data\":{\"x\":1}}"
    );
}

#[test]
fn test_webhook_body_escapes() {
    let body = build_webhook_body("a\"b\\c\n", 0, "null");
    assert_eq!(
        body,
        "{\"event_type\":\"a\\\"b\\\\c\\n\",\"timestamp\":0,\"data\":null}"
    );
}

#[test]
fn test_delivery_signed_end_to_end() {
    let mut store = Store::new();
    let webhook = store
        .create_webhook(
            "https://hooks.example/a",
            &vec![String::from("download.completed")],
            Some("s3cr3t"),
        )
        .expect("fresh id");
    let matching = store.get_active_webhooks_for_event("download.completed");
    assert_eq!(matching.len(), 1);

    let delivery = prepare_delivery(&matching[0], "download.completed", 42, "{\"ok\":true}");
    assert_eq!(delivery.url, "https://hooks.example/a");
    let sig = delivery.signature.expect("secret configured");
    assert_eq!(sig, independent_signature("s3cr3t", &delivery.body));
    assert!(verify_signature("s3cr3t", &delivery.body, &sig));

    assert_eq!(store.get_active_webhooks_for_event("download.failed").len(), 0);
    assert!(store.update_webhook_last_triggered(&webhook.id, 99));
    let all = store.get_all_webhooks();
    assert_eq!(all[0].last_triggered_at, Some(99));
    assert!(store.delete_webhook(&webhook.id));
    assert_eq!(store.get_all_webhooks().len(), 0);
}

#[test]
fn test_completed_job_webhook_scenario() {
    let mut store = Store::new();
    let req = media_jobs::model::DownloadRequest {
        url: String::from("https://youtube.com/watch?v=abc"),
        download_type: media_jobs::model::DownloadType::Audio,
        format: None,
        resolution: None,
        audio_quality: None,
        custom_filename: None,
        cookies_browser: None,
        download_playlist: None,
        download_subtitles: None,
        subtitle_language: None,
    };
    let mut job = media_jobs::orchestrator::create_download(&mut store, &req).unwrap();
    media_jobs::orchestrator::apply_download_event(
        &mut job,
        media_jobs::orchestrator::DownloadEvent::Started,
    );
    media_jobs::orchestrator::apply_download_event(
        &mut job,
        media_jobs::orchestrator::DownloadEvent::Finished {
            result: Ok(String::from("song.mp3")),
        },
    );
    store.update_download(job.clone());

    store
        .create_webhook(
            "https://hooks.example/b",
            &vec![String::from("download.completed")],
            Some("s3cr3t"),
        )
        .expect("fresh id");

    let data = build_terminal_event_data(&job, true, "");
    let targets = store.get_active_webhooks_for_event("download.completed");
    assert_eq!(targets.len(), 1);
    let delivery = prepare_delivery(&targets[0], "download.completed", 7, &data);
    let sig = delivery.signature.expect("secret configured");
    assert_eq!(sig, independent_signature("s3cr3t", &delivery.body));
    assert!(delivery.body.contains("\"event_type\":\"download.completed\""));
    assert!(delivery.body.contains("\"file_path\":\"song.mp3\""));
}

#[test]
fn test_webhook_matching_and_masking() {
    let w = Webhook {
        id: String::from("w1"),
        url: String::from("https://hooks.example"),
        events: vec![
            String::from("download.completed"),
            String::from("download.failed"),
        ],
        secret: Some(String::from("topsecret")),
        is_active: true,
        created_at: 0,
        last_triggered_at: None,
    };
    assert!(webhook_matches(&w, "download.failed"));
    assert!(!webhook_matches(&w, "download.started"));

    let mut inactive = w.clone();
    inactive.is_active = false;
    assert!(!webhook_matches(&inactive, "download.failed"));

    let masked = mask_webhook_secrets(vec![w, inactive]);
    assert_eq!(masked[0].secret.as_deref(), Some("***"));
    let filtered = active_webhooks_for_event(&masked, "download.completed");
    assert_eq!(filtered.len(), 1);
}
