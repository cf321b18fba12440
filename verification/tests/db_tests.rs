use aura_sync::db::Database;

#[test]
fn test_watched_folders() {
    let mut db = Database::new();

    let id = db.add_watched_folder("/tmp/photos");
    assert!(id > 0);

    let folders = db.get_watched_folders();
    assert_eq!(folders.len(), 1);
    assert_eq!(folders[0].path, "/tmp/photos");
    assert!(folders[0].enabled);

    let id2 = db.add_watched_folder("/tmp/photos");
    assert_eq!(id2, id);
    let folders_after = db.get_watched_folders();
    assert_eq!(folders_after.len(), 1);
}

#[test]
fn test_file_indexing() {
    let mut db = Database::new();
    let folder_id = db.add_watched_folder("/tmp/photos");

    let file_id = db.upsert_file("/tmp/photos/1.jpg", "hash123", 1000, folder_id);

    let (total, synced, pending) = db.get_stats();
    assert_eq!(total, 1);
    assert_eq!(synced, 0);
    assert_eq!(pending, 1);

    let pending_files = db.get_pending_files(10);
    assert_eq!(pending_files.len(), 1);
    assert_eq!(pending_files[0].hash, "hash123");

    db.mark_synced(file_id);

    let (total, synced, pending) = db.get_stats();
    assert_eq!(total, 1);
    assert_eq!(synced, 1);
    assert_eq!(pending, 0);
}

#[test]
fn upsert_overwrites_and_resets_status() {
    let mut db = Database::new();
    let folder_id = db.add_watched_folder("/roots/a");
    let id1 = db.upsert_file("/roots/a/x.jpg", "h1", 10, folder_id);
    db.mark_synced(id1);
    let id2 = db.upsert_file("/roots/a/x.jpg", "h2", 20, folder_id);
    assert_eq!(id1, id2);
    let pending = db.get_pending_files(-1);
    assert_eq!(pending.len(), 1);
    assert_eq!(pending[0].hash, "h2");
    assert_eq!(pending[0].mod_time, 20);
    assert_eq!(pending[0].sync_status, "pending");
}

#[test]
fn removing_a_folder_cascades_to_its_files() {
    let mut db = Database::new();
    let a = db.add_watched_folder("/roots/a");
    let b = db.add_watched_folder("/roots/b");
    db.upsert_file("/roots/a/1.jpg", "ha", 1, a);
    db.upsert_file("/roots/b/2.jpg", "hb", 2, b);

    db.remove_watched_folder(a);

    let folders = db.get_watched_folders();
    assert_eq!(folders.len(), 1);
    assert_eq!(folders[0].path, "/roots/b");
    let (total, _, _) = db.get_stats();
    assert_eq!(total, 1);
    let pending = db.get_pending_files(-1);
    assert_eq!(pending[0].path, "/roots/b/2.jpg");
}
