use cleanup_bot::queue::{BackupQueue, BackupStatus, PendingBackup, UploadStep};

fn entry(path: &str, message_id: u64) -> PendingBackup {
    PendingBackup::new(message_id, 7, path.to_string(), format!("{path}.png"), 1_700_000_000_000)
}

fn key(path: &str) -> String {
    path.to_string()
}

fn is_pending(b: &PendingBackup) -> bool {
    matches!(b.status, BackupStatus::Pending)
}

#[test]
fn new_queue_is_empty() {
    let q = BackupQueue::new();
    assert!(q.get_pending().is_empty());
    assert!(q.get_failed(5).is_empty());
    assert!(q.snapshot().is_empty());
}

#[test]
fn add_then_get_returns_entry() {
    let mut q = BackupQueue::new();
    q.add(entry("/tmp/a", 1));
    let b = q.get(&key("/tmp/a")).expect("entry present");
    assert_eq!(b.message_id, 1);
    assert_eq!(b.retry_count, 0);
    assert!(is_pending(b));
    assert!(q.get(&key("/tmp/b")).is_none());
}

#[test]
fn add_same_path_replaces_and_resets_retries() {
    let mut q = BackupQueue::new();
    q.add(entry("/tmp/a", 1));
    q.mark_failed(&key("/tmp/a"), "boom".to_string());
    q.mark_failed(&key("/tmp/a"), "boom".to_string());
    assert_eq!(q.get(&key("/tmp/a")).unwrap().retry_count, 2);
    q.add(entry("/tmp/a", 9));
    let b = q.get(&key("/tmp/a")).unwrap();
    assert_eq!(b.message_id, 9);
    assert_eq!(b.retry_count, 0);
    assert_eq!(q.snapshot().len(), 1);
}

#[test]
fn remove_deletes_only_that_entry() {
    let mut q = BackupQueue::new();
    q.add(entry("/tmp/a", 1));
    q.add(entry("/tmp/b", 2));
    q.remove(&key("/tmp/a"));
    assert!(q.get(&key("/tmp/a")).is_none());
    assert!(q.get(&key("/tmp/b")).is_some());
    q.remove(&key("/tmp/missing"));
    assert_eq!(q.snapshot().len(), 1);
}

#[test]
fn mark_failed_increments_by_one_and_records_error() {
    let mut q = BackupQueue::new();
    q.add(entry("/tmp/a", 1));
    q.mark_failed(&key("/tmp/a"), "network down".to_string());
    let b = q.get(&key("/tmp/a")).unwrap();
    assert_eq!(b.retry_count, 1);
    match &b.status {
        BackupStatus::Failed { error } => assert_eq!(error, "network down"),
        _ => panic!("expected failed status"),
    }
}

#[test]
fn reset_to_pending_keeps_retry_count() {
    let mut q = BackupQueue::new();
    q.add(entry("/tmp/a", 1));
    q.mark_failed(&key("/tmp/a"), "x".to_string());
    q.reset_to_pending(&key("/tmp/a"));
    let b = q.get(&key("/tmp/a")).unwrap();
    assert_eq!(b.retry_count, 1);
    assert!(is_pending(b));
}

#[test]
fn mark_in_progress_changes_status_only() {
    let mut q = BackupQueue::new();
    q.add(entry("/tmp/a", 1));
    q.mark_in_progress(&key("/tmp/a"));
    let b = q.get(&key("/tmp/a")).unwrap();
    assert!(matches!(b.status, BackupStatus::InProgress));
    assert_eq!(b.retry_count, 0);
    assert!(q.get_pending().is_empty());
}

#[test]
fn marking_an_absent_path_changes_nothing() {
    let mut q = BackupQueue::new();
    q.add(entry("/tmp/a", 1));
    q.mark_in_progress(&key("/tmp/zzz"));
    q.mark_failed(&key("/tmp/zzz"), "x".to_string());
    q.reset_to_pending(&key("/tmp/zzz"));
    assert_eq!(q.snapshot().len(), 1);
    assert!(is_pending(q.get(&key("/tmp/a")).unwrap()));
}

#[test]
fn get_pending_and_get_failed_select_exactly() {
    let mut q = BackupQueue::new();
    q.add(entry("/tmp/p", 1));
    q.add(entry("/tmp/f1", 2));
    q.add(entry("/tmp/f3", 3));
    q.add(entry("/tmp/i", 4));
    q.mark_failed(&key("/tmp/f1"), "e".to_string());
    for _ in 0..3 {
        q.mark_failed(&key("/tmp/f3"), "e".to_string());
    }
    q.mark_in_progress(&key("/tmp/i"));

    let pending: Vec<String> = q.get_pending().iter().map(|b| b.local_path.clone()).collect();
    assert_eq!(pending, vec!["/tmp/p".to_string()]);

    let failed: Vec<String> = q.get_failed(3).iter().map(|b| b.local_path.clone()).collect();
    assert_eq!(failed, vec!["/tmp/f1".to_string()]);

    let mut failed_all: Vec<String> = q.get_failed(4).iter().map(|b| b.local_path.clone()).collect();
    failed_all.sort();
    assert_eq!(failed_all, vec!["/tmp/f1".to_string(), "/tmp/f3".to_string()]);
    assert!(q.get_failed(0).is_empty());
}

#[test]
fn load_resets_in_progress_to_pending() {
    let mut q = BackupQueue::new();
    q.add(entry("/tmp/a", 1));
    q.add(entry("/tmp/b", 2));
    q.add(entry("/tmp/c", 3));
    q.mark_in_progress(&key("/tmp/a"));
    q.mark_failed(&key("/tmp/b"), "e".to_string());
    let reloaded = BackupQueue::load(&q.snapshot());
    let a = reloaded.get(&key("/tmp/a")).unwrap();
    assert!(is_pending(a));
    assert!(matches!(reloaded.get(&key("/tmp/b")).unwrap().status, BackupStatus::Failed { .. }));
    assert!(is_pending(reloaded.get(&key("/tmp/c")).unwrap()));
    for b in reloaded.snapshot() {
        assert!(!matches!(b.status, BackupStatus::InProgress));
    }
}

#[test]
fn load_of_nothing_is_empty() {
    let q = BackupQueue::load(&Vec::new());
    assert!(q.snapshot().is_empty());
}

#[test]
fn load_keeps_the_later_of_two_records_for_one_path() {
    let records = vec![entry("/tmp/a", 1), entry("/tmp/a", 2)];
    let q = BackupQueue::load(&records);
    assert_eq!(q.snapshot().len(), 1);
    assert_eq!(q.get(&key("/tmp/a")).unwrap().message_id, 2);
}

#[test]
fn snapshot_then_load_restores_the_same_entries() {
    let mut q = BackupQueue::new();
    q.add(entry("/tmp/a", 1));
    q.add(entry("/tmp/b", 2));
    q.mark_failed(&key("/tmp/b"), "e".to_string());
    q.remove(&key("/tmp/a"));
    q.add(entry("/tmp/c", 3));
    let reloaded = BackupQueue::load(&q.snapshot());
    assert_eq!(reloaded.snapshot().len(), 2);
    let b = reloaded.get(&key("/tmp/b")).unwrap();
    assert_eq!(b.retry_count, 1);
    assert_eq!(b.message_id, 2);
    assert_eq!(b.channel_id, 7);
    assert_eq!(b.original_filename, "/tmp/b.png");
    assert_eq!(b.timestamp_ms, 1_700_000_000_000);
    assert!(reloaded.get(&key("/tmp/a")).is_none());
    assert!(reloaded.get(&key("/tmp/c")).is_some());
}

#[test]
fn begin_upload_marks_missing_file_failed() {
    let mut q = BackupQueue::new();
    q.add(entry("/tmp/a", 1));
    let step = q.begin_upload(&key("/tmp/a"), false, 5);
    assert!(matches!(step, UploadStep::MarkedMissing));
    let b = q.get(&key("/tmp/a")).unwrap();
    assert_eq!(b.retry_count, 1);
    match &b.status {
        BackupStatus::Failed { error } => assert_eq!(error, "file missing"),
        _ => panic!("expected failed status"),
    }
}

#[test]
fn begin_upload_skips_exhausted_and_absent_entries() {
    let mut q = BackupQueue::new();
    q.add(entry("/tmp/a", 1));
    q.mark_failed(&key("/tmp/a"), "e".to_string());
    q.mark_failed(&key("/tmp/a"), "e".to_string());
    q.reset_to_pending(&key("/tmp/a"));
    assert!(matches!(q.begin_upload(&key("/tmp/a"), true, 2), UploadStep::Skip));
    assert!(is_pending(q.get(&key("/tmp/a")).unwrap()));
    assert!(matches!(q.begin_upload(&key("/tmp/none"), true, 2), UploadStep::Skip));
}

#[test]
fn begin_upload_marks_in_progress_then_success_removes() {
    let mut q = BackupQueue::new();
    q.add(entry("/tmp/a", 1));
    assert!(matches!(q.begin_upload(&key("/tmp/a"), true, 5), UploadStep::Upload));
    assert!(matches!(q.get(&key("/tmp/a")).unwrap().status, BackupStatus::InProgress));
    q.finish_upload(&key("/tmp/a"), Ok(()));
    assert!(q.get(&key("/tmp/a")).is_none());
}

#[test]
fn failed_upload_is_retried_on_next_pass() {
    let mut q = BackupQueue::new();
    q.add(entry("/tmp/a", 1));
    assert!(matches!(q.begin_upload(&key("/tmp/a"), true, 5), UploadStep::Upload));
    q.finish_upload(&key("/tmp/a"), Err("503".to_string()));
    q.reset_failed_for_retry(5);
    let b = q.get(&key("/tmp/a")).unwrap();
    assert!(is_pending(b));
    assert_eq!(b.retry_count, 1);
}

#[test]
fn last_allowed_failure_leaves_entry_exhausted_in_queue() {
    let max_retries: u32 = 3;
    let mut q = BackupQueue::new();
    q.add(entry("/tmp/a", 1));
    for _ in 0..(max_retries - 1) {
        q.mark_failed(&key("/tmp/a"), "e".to_string());
    }
    q.reset_to_pending(&key("/tmp/a"));
    assert_eq!(q.get(&key("/tmp/a")).unwrap().retry_count, max_retries - 1);

    assert!(matches!(q.begin_upload(&key("/tmp/a"), true, max_retries), UploadStep::Upload));
    q.finish_upload(&key("/tmp/a"), Err("upload failed".to_string()));
    q.reset_failed_for_retry(max_retries);

    let b = q.get(&key("/tmp/a")).expect("still queued");
    assert_eq!(b.retry_count, max_retries);
    assert!(matches!(b.status, BackupStatus::Failed { .. }));
    assert!(q.get_failed(max_retries).is_empty());
    assert!(q.get_pending().is_empty());
    assert_eq!(BackupQueue::load(&q.snapshot()).snapshot().len(), 1);
}

#[test]
fn reset_failed_for_retry_only_touches_retryable_failures() {
    let mut q = BackupQueue::new();
    q.add(entry("/tmp/a", 1));
    q.add(entry("/tmp/b", 2));
    q.add(entry("/tmp/c", 3));
    q.mark_failed(&key("/tmp/a"), "e".to_string());
    q.mark_failed(&key("/tmp/b"), "e".to_string());
    q.mark_failed(&key("/tmp/b"), "e".to_string());
    q.mark_in_progress(&key("/tmp/c"));
    q.reset_failed_for_retry(2);
    assert!(is_pending(q.get(&key("/tmp/a")).unwrap()));
    assert!(matches!(q.get(&key("/tmp/b")).unwrap().status, BackupStatus::Failed { .. }));
    assert!(matches!(q.get(&key("/tmp/c")).unwrap().status, BackupStatus::InProgress));
}

#[test]
fn missing_file_is_not_retried() {
    let mut q = BackupQueue::new();
    q.add(entry("/tmp/a", 1));
    assert!(matches!(q.begin_upload(&key("/tmp/a"), false, 5), UploadStep::MarkedMissing));
    q.reset_failed_for_retry(5);
    let b = q.get(&key("/tmp/a")).unwrap();
    assert_eq!(b.retry_count, 1);
    match &b.status {
        BackupStatus::Failed { error } => assert_eq!(error, "file missing"),
        _ => panic!("expected failed status"),
    }
    assert!(q.get_pending().is_empty());
}
