use aura_sync::db::{Database, WatchedFolder};
use aura_sync::sync::{
    build_health_url, build_upload_url, classify_response, content_type_for, is_success_status,
    read_failure, remote_name_for, transport_failure, SyncConfig,
};
use aura_sync::watcher::{resolve_root, should_index_event, WatchSet};

fn test_config() -> SyncConfig {
    SyncConfig {
        supabase_url: "https://api.example.test".to_string(),
        supabase_key: "test-key".to_string(),
        org_id: "org1".to_string(),
        bucket: "photos".to_string(),
    }
}

#[test]
fn content_types_follow_the_exact_extension() {
    assert_eq!(content_type_for("/a/b.jpg"), "image/jpeg");
    assert_eq!(content_type_for("/a/b.jpeg"), "image/jpeg");
    assert_eq!(content_type_for("/a/b.png"), "image/png");
    assert_eq!(content_type_for("/a/b.webp"), "image/webp");
    assert_eq!(content_type_for("/a/b.heif"), "image/heic");
    assert_eq!(content_type_for("/a/b.gif"), "application/octet-stream");
    // the extension is matched as written, as the transfer layer sends it
    assert_eq!(content_type_for("/a/b.JPG"), "application/octet-stream");
    assert_eq!(content_type_for("/a/noext"), "application/octet-stream");
}

#[test]
fn upload_url_is_assembled_from_the_config() {
    let url = build_upload_url(&test_config(), "abc/a.jpg");
    assert_eq!(url, "https://api.example.test/storage/v1/object/photos/abc/a.jpg");
    assert_eq!(build_health_url(&test_config()), "https://api.example.test/rest/v1/");
}

#[test]
fn remote_names_are_digest_prefixed() {
    assert_eq!(remote_name_for("cafe01", "/photos/a.jpg"), "cafe01/a.jpg");
}

#[test]
fn success_is_exactly_the_2xx_range() {
    assert!(!is_success_status(199));
    assert!(is_success_status(200));
    assert!(is_success_status(299));
    assert!(!is_success_status(300));
    assert!(!is_success_status(404));
}

#[test]
fn responses_classify_by_status_range() {
    let ok = classify_response(200, "200 OK", "", "k/a.jpg");
    assert!(ok.success);
    assert_eq!(ok.path, Some("k/a.jpg".to_string()));
    assert_eq!(ok.error, None);

    let created = classify_response(201, "201 Created", "", "k/a.jpg");
    assert!(created.success);

    let not_found = classify_response(404, "404 Not Found", "no such bucket", "k/a.jpg");
    assert!(!not_found.success);
    assert_eq!(not_found.path, None);
    assert_eq!(
        not_found.error,
        Some("Upload failed: 404 Not Found - no such bucket".to_string())
    );
}

#[test]
fn failure_outcomes_carry_their_cause() {
    let r = read_failure("is a directory");
    assert_eq!(r.error, Some("Failed to read file: is a directory".to_string()));
    let t = transport_failure("connection refused");
    assert_eq!(t.error, Some("Request failed: connection refused".to_string()));
}

#[test]
fn watch_set_is_idempotent() {
    let mut w = WatchSet::new();
    assert!(w.add("/photos"));
    assert!(!w.add("/photos"));
    assert!(w.contains("/photos"));
    assert!(!w.contains("/other"));
    assert!(w.remove("/photos"));
    assert!(!w.remove("/photos"));
    assert!(!w.contains("/photos"));
}

#[test]
fn events_resolve_to_the_first_matching_root() {
    let folders = vec![
        WatchedFolder { id: 1, path: "/photos".to_string(), enabled: true },
        WatchedFolder { id: 2, path: "/photos/raw".to_string(), enabled: true },
        WatchedFolder { id: 3, path: "/videos".to_string(), enabled: true },
    ];
    assert_eq!(resolve_root(&folders, "/photos/raw/x.nef"), Some(1));
    assert_eq!(resolve_root(&folders, "/videos/v.jpg"), Some(3));
    assert_eq!(resolve_root(&folders, "/music/m.jpg"), None);
    assert_eq!(should_index_event(&folders, "/photos/a.jpg", true), Some(1));
    assert_eq!(should_index_event(&folders, "/photos/sub", false), None);
}

#[test]
fn watcher_work_feeds_the_index() {
    let mut db = Database::new();
    let folder_id = db.add_watched_folder("/photos");
    let folders = db.get_watched_folders();
    let owner = resolve_root(&folders, "/photos/new.jpg").unwrap();
    assert_eq!(owner, folder_id);
    let id = db.upsert_file("/photos/new.jpg", "h", 1, owner);
    assert!(id > 0);
}
