use media_jobs::model::{CreateTagRequest, DownloadRequest, DownloadStatus, DownloadType};
use media_jobs::orchestrator::{
    create_batch_downloads, create_download, import_downloads, list_downloads,
};
use media_jobs::model::PaginationParams;
use media_jobs::store::Store;

fn request(url: &str) -> DownloadRequest {
    DownloadRequest {
        url: String::from(url),
        download_type: DownloadType::Video,
        format: None,
        resolution: None,
        audio_quality: None,
        custom_filename: None,
        cookies_browser: None,
        download_playlist: None,
        download_subtitles: None,
        subtitle_language: None,
    }
}

#[test]
fn test_rejected_url_persists_nothing() {
    let mut store = Store::new();
    let r = create_download(&mut store, &request("https://malicious-site.com/video"));
    let e = r.unwrap_err();
    assert_eq!(e.error, "validation_error");
    assert!(e.message.starts_with("Domain 'malicious-site.com' is not allowed."));
    assert_eq!(store.get_all_downloads().len(), 0);
}

#[test]
fn test_create_persists_pending_job() {
    let mut store = Store::new();
    let job = create_download(&mut store, &request("https://youtube.com/watch?v=a")).unwrap();
    assert!(matches!(job.status, DownloadStatus::Pending));
    assert_eq!(job.progress, 0);
    assert_eq!(job.message, "Download queued");
    assert!(job.completed_at.is_none());
    assert_eq!(job.id.len(), 36);
    let found = store.get_download(&job.id).unwrap();
    assert_eq!(found.url, "https://youtube.com/watch?v=a");
}

#[test]
fn test_delete_keeps_other_jobs_and_their_tags() {
    let mut store = Store::new();
    let j1 = create_download(&mut store, &request("https://youtube.com/watch?v=1")).unwrap();
    let j2 = create_download(&mut store, &request("https://youtube.com/watch?v=2")).unwrap();
    let j3 = create_download(&mut store, &request("https://youtube.com/watch?v=3")).unwrap();

    let music = store
        .create_tag(CreateTagRequest {
            name: String::from("music"),
            color: Some(String::from("#8b5cf6")),
            category: None,
        })
        .expect("fresh tag name");
    let talks = store
        .create_tag(CreateTagRequest {
            name: String::from("talks"),
            color: None,
            category: None,
        })
        .expect("fresh tag name");

    store.add_tag_to_download(&j1.id, &music.id);
    store.add_tag_to_download(&j2.id, &music.id);
    store.add_tag_to_download(&j2.id, &talks.id);
    store.add_tag_to_download(&j3.id, &talks.id);

    let removed = store.remove_download(&j2.id).expect("existed");
    assert_eq!(removed.id, j2.id);

    let left = store.get_all_downloads();
    assert_eq!(left.len(), 2);
    assert!(left.iter().any(|j| j.id == j1.id));
    assert!(left.iter().any(|j| j.id == j3.id));

    let t1: Vec<String> = store.get_download_tags(&j1.id).iter().map(|t| t.name.clone()).collect();
    assert_eq!(t1, vec![String::from("music")]);
    let t3: Vec<String> = store.get_download_tags(&j3.id).iter().map(|t| t.name.clone()).collect();
    assert_eq!(t3, vec![String::from("talks")]);
    assert_eq!(store.get_download_tags(&j2.id).len(), 0);
}

#[test]
fn test_duplicate_tag_name_conflict() {
    let mut store = Store::new();
    let first = store.create_tag(CreateTagRequest {
        name: String::from("music"),
        color: None,
        category: None,
    });
    assert!(first.is_some());
    let second = store.create_tag(CreateTagRequest {
        name: String::from("music"),
        color: Some(String::from("#fff")),
        category: None,
    });
    assert!(second.is_none());
    assert_eq!(store.get_all_tags().len(), 1);
}

#[test]
fn test_set_download_tags_replaces_and_refuses_duplicates() {
    let mut store = Store::new();
    let job = create_download(&mut store, &request("https://youtube.com/watch?v=t")).unwrap();
    let a = store
        .create_tag(CreateTagRequest { name: String::from("a"), color: None, category: None })
        .unwrap();
    let b = store
        .create_tag(CreateTagRequest { name: String::from("b"), color: None, category: None })
        .unwrap();

    assert!(store.set_download_tags(&job.id, &vec![a.id.clone(), b.id.clone()]));
    assert_eq!(store.get_download_tags(&job.id).len(), 2);

    assert!(store.set_download_tags(&job.id, &vec![b.id.clone()]));
    let names: Vec<String> =
        store.get_download_tags(&job.id).iter().map(|t| t.name.clone()).collect();
    assert_eq!(names, vec![String::from("b")]);

    assert!(!store.set_download_tags(&job.id, &vec![a.id.clone(), a.id.clone()]));
    assert_eq!(store.get_download_tags(&job.id).len(), 1);

    store.remove_tag_from_download(&job.id, &b.id);
    assert_eq!(store.get_download_tags(&job.id).len(), 0);
}

#[test]
fn test_batch_counts() {
    let mut store = Store::new();
    let reqs = vec![
        request("https://youtube.com/watch?v=x"),
        request("https://malicious-site.com/video"),
        request("https://vimeo.com/123"),
        request("not a url"),
    ];
    let (outcome, jobs) = create_batch_downloads(&mut store, &reqs);
    assert_eq!(outcome.created, 2);
    assert_eq!(outcome.errors, 2);
    assert_eq!(outcome.error_details.len(), 2);
    assert_eq!(jobs.len(), 2);
    assert_eq!(outcome.error_details[1].url, "not a url");
    assert_eq!(store.get_all_downloads().len(), 2);
}

#[test]
fn test_pagination_newest_first() {
    let mut store = Store::new();
    let j1 = create_download(&mut store, &request("https://youtube.com/watch?v=1")).unwrap();
    let j2 = create_download(&mut store, &request("https://youtube.com/watch?v=2")).unwrap();
    let j3 = create_download(&mut store, &request("https://youtube.com/watch?v=3")).unwrap();

    let page = list_downloads(&store, &PaginationParams { page: Some(1), per_page: Some(2) });
    assert_eq!(page.total, 3);
    assert_eq!(page.total_pages, 2);
    assert_eq!(page.items.len(), 2);
    assert_eq!(page.items[0].id, j3.id);
    assert_eq!(page.items[1].id, j2.id);

    let page2 = list_downloads(&store, &PaginationParams { page: Some(2), per_page: Some(2) });
    assert_eq!(page2.items.len(), 1);
    assert_eq!(page2.items[0].id, j1.id);

    let defaults = list_downloads(&store, &PaginationParams { page: None, per_page: None });
    assert_eq!(defaults.page, 1);
    assert_eq!(defaults.per_page, 20);
    assert_eq!(defaults.items.len(), 3);
}

#[test]
fn test_update_metadata_and_favorite() {
    let mut store = Store::new();
    let job = create_download(&mut store, &request("https://youtube.com/watch?v=m")).unwrap();
    assert!(store.update_metadata(&job.id, Some("A Title"), None, Some("my notes")));
    let j = store.get_download(&job.id).unwrap();
    assert_eq!(j.title.as_deref(), Some("A Title"));
    assert!(j.author.is_none());
    assert_eq!(j.notes.as_deref(), Some("my notes"));

    assert!(store.toggle_favorite(&job.id));
    assert!(store.get_download(&job.id).unwrap().is_favorite);
    assert!(store.toggle_favorite(&job.id));
    assert!(!store.get_download(&job.id).unwrap().is_favorite);

    assert!(!store.update_metadata("missing", None, None, None));
    assert!(!store.toggle_favorite("missing"));
}

#[test]
fn test_import_counts() {
    let mut store = Store::new();
    let existing = create_download(&mut store, &request("https://youtube.com/watch?v=e")).unwrap();

    let mut fresh = existing.clone();
    fresh.id = String::from("fresh-id-000000000000000000000000000");
    let mut invalid = existing.clone();
    invalid.id = String::from("invalid-url-0000000000000000000000000");
    invalid.url = String::from("https://malicious-site.com/video");

    let (imported, skipped, errors) =
        import_downloads(&mut store, vec![existing.clone(), fresh, invalid]);
    assert_eq!(imported, 1);
    assert_eq!(skipped, 1);
    assert_eq!(errors, 1);
    assert_eq!(store.get_all_downloads().len(), 2);
}
