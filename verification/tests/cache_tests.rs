use media_jobs::cache::VideoInfoCache;
use media_jobs::model::CreateTagRequest;
use media_jobs::store::Store;

#[test]
fn test_cache_serves_fresh_entries() {
    let mut cache = VideoInfoCache::new(1000);
    assert_eq!(cache.get("https://youtube.com/watch?v=a", 0), None);

    cache.set("https://youtube.com/watch?v=a", String::from("{\"title\":\"A\"}"), 100);
    assert_eq!(
        cache.get("https://youtube.com/watch?v=a", 500).as_deref(),
        Some("{\"title\":\"A\"}")
    );
    assert_eq!(cache.get("https://youtube.com/watch?v=a", 1100), None);
    assert_eq!(cache.get("https://youtube.com/watch?v=b", 500), None);
}

#[test]
fn test_cache_set_replaces() {
    let mut cache = VideoInfoCache::new(1000);
    cache.set("u", String::from("one"), 0);
    cache.set("u", String::from("two"), 10);
    assert_eq!(cache.get("u", 20).as_deref(), Some("two"));
    assert_eq!(cache.entries.len(), 1);
}

#[test]
fn test_cache_clear_expired() {
    let mut cache = VideoInfoCache::new(1000);
    cache.set("old", String::from("1"), 0);
    cache.set("new", String::from("2"), 900);
    cache.clear_expired(1500);
    assert_eq!(cache.entries.len(), 1);
    assert_eq!(cache.get("new", 1500).as_deref(), Some("2"));
    assert_eq!(cache.get("old", 1500), None);
}

#[test]
fn test_default_tags_seeded_once() {
    let mut store = Store::new();
    assert!(store.initialize_default_tags());
    let n = store.get_all_tags().len();
    assert_eq!(n, 11);
    assert!(store.get_tag_by_name("Musique").is_some());
    assert!(store.get_tag_by_name("SoundCloud").is_some());
    let platform = store.get_tag_by_name("YouTube").unwrap();
    assert_eq!(platform.category.as_deref(), Some("Plateforme"));
    assert_eq!(platform.color.as_deref(), Some("#ff0000"));

    // A second seeding finds every name taken and changes nothing.
    assert!(store.initialize_default_tags());
    assert_eq!(store.get_all_tags().len(), n);
}

#[test]
fn test_update_tag_rules() {
    let mut store = Store::new();
    let a = store
        .create_tag(CreateTagRequest { name: String::from("a"), color: None, category: None })
        .unwrap();
    let b = store
        .create_tag(CreateTagRequest { name: String::from("b"), color: None, category: None })
        .unwrap();

    // Renaming onto another tag's name is refused.
    let mut clash = a.clone();
    clash.name = String::from("b");
    assert!(!store.update_tag(clash));

    // An ordinary update goes through.
    let mut renamed = a.clone();
    renamed.name = String::from("a2");
    renamed.color = Some(String::from("#123456"));
    assert!(store.update_tag(renamed));
    let got = store.get_tag(&a.id).unwrap();
    assert_eq!(got.name, "a2");
    assert_eq!(got.color.as_deref(), Some("#123456"));

    // Deleting a tag drops it and its associations.
    assert!(store.delete_tag(&b.id));
    assert!(store.get_tag(&b.id).is_none());
    assert!(!store.delete_tag(&b.id));
}
