use aura_sync::queue::SyncQueue;
use aura_sync::worker::{begin_item, finish_transfer, FileProbe, ItemStep, TransferOutcome};
use aura_sync::hash::calculate_file_hash;

#[test]
fn test_queue_operations() {
    let mut queue = SyncQueue::new();

    queue.add_item("test_file.jpg".to_string(), 1000);

    let pending = queue.get_pending(10);
    assert_eq!(pending.len(), 1);
    assert_eq!(pending[0].file_path, "test_file.jpg");
    assert_eq!(pending[0].status, "pending");

    queue.update_status(pending[0].id, "completed", None);
    let pending_after = queue.get_pending(10);
    assert!(pending_after.is_empty());
}

#[test]
fn test_delta_sync_hash() {
    let mut queue = SyncQueue::new();

    queue.update_synced_hash("test.jpg", "abc123hash", 0);

    let hash = queue.get_synced_hash("test.jpg");
    assert_eq!(hash, Some("abc123hash".to_string()));

    let missing = queue.get_synced_hash("missing.jpg");
    assert_eq!(missing, None);
}

#[test]
fn queue_fifo_order() {
    let mut queue = SyncQueue::new();
    queue.add_item("/photos/first.jpg".to_string(), 100);
    queue.add_item("/photos/second.jpg".to_string(), 200);
    queue.add_item("/photos/third.jpg".to_string(), 300);

    let pending = queue.get_pending(10);
    assert_eq!(pending.len(), 3);
    assert_eq!(pending[0].file_path, "/photos/first.jpg");
    assert_eq!(pending[1].file_path, "/photos/second.jpg");
    assert_eq!(pending[2].file_path, "/photos/third.jpg");
}

#[test]
fn queue_fifo_order_out_of_order_clock() {
    let mut queue = SyncQueue::new();
    queue.add_item("/late.jpg".to_string(), 300);
    queue.add_item("/early.jpg".to_string(), 100);

    let pending = queue.get_pending(10);
    assert_eq!(pending.len(), 2);
    assert_eq!(pending[0].file_path, "/early.jpg");
    assert_eq!(pending[1].file_path, "/late.jpg");
}

#[test]
fn queue_limit_and_duplicates() {
    let mut queue = SyncQueue::new();
    queue.add_item("/same.jpg".to_string(), 1);
    queue.add_item("/same.jpg".to_string(), 2);
    queue.add_item("/same.jpg".to_string(), 3);
    assert_eq!(queue.get_pending(10).len(), 3);
    assert_eq!(queue.get_pending(2).len(), 2);
    assert_eq!(queue.get_pending(0).len(), 0);
    assert_eq!(queue.get_pending(-1).len(), 3);
}

#[test]
fn queue_increment_retry() {
    let mut queue = SyncQueue::new();
    queue.add_item("/r.jpg".to_string(), 5);
    let id = queue.get_pending(1)[0].id;
    queue.increment_retry(id);
    queue.increment_retry(id);
    let item = queue.get_item(id).unwrap();
    assert_eq!(item.retries, 2);
}

#[test]
fn drain_uploads_then_records_digest() {
    // Enqueue an existing 100-byte file, drain it: the item completes and
    // the delta index holds its digest.
    let content: Vec<u8> = vec![7u8; 100];
    let digest = calculate_file_hash(&content);

    let mut queue = SyncQueue::new();
    queue.add_item("/photos/a.jpg".to_string(), 1000);
    let id = queue.get_pending(10)[0].id;

    let step = begin_item(&mut queue, id, "/photos/a.jpg", &FileProbe::Content(content.clone()));
    let d = match step {
        ItemStep::NeedsTransfer(d) => d,
        _ => panic!("expected a transfer on first drain"),
    };
    assert_eq!(d, digest);
    assert_eq!(queue.get_item(id).unwrap().status, "uploading");

    finish_transfer(&mut queue, id, "/photos/a.jpg", &d, &TransferOutcome::Success, 1001);
    assert_eq!(queue.get_item(id).unwrap().status, "completed");
    assert_eq!(queue.get_synced_hash("/photos/a.jpg"), Some(digest));
}

#[test]
fn second_drain_skips_unchanged() {
    // Drain the same unchanged content twice: the second attempt completes
    // with no transfer step at all.
    let content: Vec<u8> = vec![7u8; 100];

    let mut queue = SyncQueue::new();
    queue.add_item("/photos/a.jpg".to_string(), 1000);
    let id1 = queue.get_pending(10)[0].id;
    let step = begin_item(&mut queue, id1, "/photos/a.jpg", &FileProbe::Content(content.clone()));
    let d = match step {
        ItemStep::NeedsTransfer(d) => d,
        _ => panic!("expected a transfer on first drain"),
    };
    finish_transfer(&mut queue, id1, "/photos/a.jpg", &d, &TransferOutcome::Success, 1001);

    queue.add_item("/photos/a.jpg".to_string(), 2000);
    let id2 = queue.get_pending(10)[0].id;
    assert_ne!(id1, id2);
    let step2 = begin_item(&mut queue, id2, "/photos/a.jpg", &FileProbe::Content(content));
    assert!(matches!(step2, ItemStep::SkippedUnchanged));
    assert_eq!(queue.get_item(id2).unwrap().status, "completed");
}

#[test]
fn changed_content_needs_transfer_again() {
    let mut queue = SyncQueue::new();
    queue.update_synced_hash("/p.jpg", calculate_file_hash(&[1, 2, 3]).as_str(), 0);
    queue.add_item("/p.jpg".to_string(), 10);
    let id = queue.get_pending(1)[0].id;
    let step = begin_item(&mut queue, id, "/p.jpg", &FileProbe::Content(vec![9, 9, 9]));
    assert!(matches!(step, ItemStep::NeedsTransfer(_)));
}

#[test]
fn drain_missing_file_fails_item() {
    let mut queue = SyncQueue::new();
    queue.add_item("/gone.jpg".to_string(), 1);
    let id = queue.get_pending(1)[0].id;
    let step = begin_item(&mut queue, id, "/gone.jpg", &FileProbe::Missing);
    match step {
        ItemStep::Failed(m) => assert_eq!(m, "File not found"),
        _ => panic!("expected failure"),
    }
    let item = queue.get_item(id).unwrap();
    assert_eq!(item.status, "failed");
    assert_eq!(item.last_error, Some("File not found".to_string()));
}

#[test]
fn drain_unreadable_file_fails_item() {
    let mut queue = SyncQueue::new();
    queue.add_item("/locked.jpg".to_string(), 1);
    let id = queue.get_pending(1)[0].id;
    let step = begin_item(
        &mut queue,
        id,
        "/locked.jpg",
        &FileProbe::Unreadable("permission denied".to_string()),
    );
    match step {
        ItemStep::Failed(m) => assert_eq!(m, "Hash error: permission denied"),
        _ => panic!("expected failure"),
    }
    assert_eq!(queue.get_item(id).unwrap().status, "failed");
}

#[test]
fn failed_transfer_keeps_index_clean() {
    let mut queue = SyncQueue::new();
    queue.add_item("/f.jpg".to_string(), 1);
    let id = queue.get_pending(1)[0].id;
    let step = begin_item(&mut queue, id, "/f.jpg", &FileProbe::Content(vec![5]));
    let d = match step {
        ItemStep::NeedsTransfer(d) => d,
        _ => panic!("expected transfer"),
    };
    finish_transfer(
        &mut queue,
        id,
        "/f.jpg",
        &d,
        &TransferOutcome::Failure("Upload failed: 500 - oops".to_string()),
        2,
    );
    let item = queue.get_item(id).unwrap();
    assert_eq!(item.status, "failed");
    assert_eq!(item.last_error, Some("Upload failed: 500 - oops".to_string()));
    assert_eq!(queue.get_synced_hash("/f.jpg"), None);
}
