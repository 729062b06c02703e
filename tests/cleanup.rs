use cleanup_bot::cleanup::{
    attachment_is_media, classify_messages, enqueue_downloads, extract_media, filter_expired_messages,
    plan_deletes, retention_cutoff_ms, Attachment, ChatMessage, ClassifiedMessages, DeleteJob,
    DownloadedFile, Pagination, MS_PER_DAY,
};
use cleanup_bot::queue::{BackupQueue, BackupStatus};

const NOW: i64 = 1_700_000_000_000;

fn attachment(id: u64, content_type: Option<&str>) -> Attachment {
    Attachment {
        id,
        filename: format!("file{id}"),
        url: format!("https://cdn.example/{id}"),
        content_type: content_type.map(|c| c.to_string()),
    }
}

fn message(id: u64, age_days: i64, attachments: Vec<Attachment>) -> ChatMessage {
    ChatMessage { id, timestamp_ms: NOW - age_days * MS_PER_DAY, attachments }
}

fn ids(messages: &[ChatMessage]) -> Vec<u64> {
    messages.iter().map(|m| m.id).collect()
}

#[test]
fn media_is_image_or_video() {
    assert!(attachment_is_media(&attachment(1, Some("image/png"))));
    assert!(attachment_is_media(&attachment(2, Some("video/mp4"))));
    assert!(!attachment_is_media(&attachment(3, Some("application/pdf"))));
    assert!(!attachment_is_media(&attachment(4, Some("imag"))));
    assert!(!attachment_is_media(&attachment(5, None)));
}

#[test]
fn extract_media_keeps_media_in_order() {
    let atts = vec![
        attachment(1, Some("text/plain")),
        attachment(2, Some("image/jpeg")),
        attachment(3, None),
        attachment(4, Some("video/webm")),
    ];
    let media = extract_media(&atts);
    assert_eq!(media.iter().map(|a| a.id).collect::<Vec<_>>(), vec![2, 4]);
    assert_eq!(media[0].filename, "file2");
}

#[test]
fn retention_cutoff_is_days_before_now() {
    assert_eq!(retention_cutoff_ms(NOW, 1), NOW - 86_400_000);
    assert_eq!(retention_cutoff_ms(NOW, 30), NOW - 30 * 86_400_000);
}

#[test]
fn filter_keeps_strictly_older_messages() {
    let cutoff_age = 3;
    let msgs = vec![
        message(10, 1, vec![]),
        message(9, 5, vec![]),
        ChatMessage { id: 8, timestamp_ms: NOW - cutoff_age * MS_PER_DAY, attachments: vec![] },
        ChatMessage { id: 7, timestamp_ms: NOW - cutoff_age * MS_PER_DAY - 1, attachments: vec![] },
    ];
    let expired = filter_expired_messages(msgs, cutoff_age as u32, NOW);
    assert_eq!(ids(&expired), vec![9, 7]);
}

#[test]
fn filter_of_empty_is_empty() {
    assert!(filter_expired_messages(Vec::new(), 1, NOW).is_empty());
}

#[test]
fn classification_splits_by_media() {
    let msgs = vec![
        message(1, 2, vec![]),
        message(2, 2, vec![attachment(20, Some("image/png"))]),
        message(3, 2, vec![attachment(30, Some("application/zip"))]),
        message(4, 2, vec![attachment(40, Some("application/zip")), attachment(41, Some("video/mp4"))]),
    ];
    let c = classify_messages(msgs);
    assert_eq!(c.delete_jobs.iter().map(|j| j.message_id).collect::<Vec<_>>(), vec![1, 3]);
    assert_eq!(c.backup_jobs.iter().map(|j| j.message_id).collect::<Vec<_>>(), vec![2, 4]);
    assert_eq!(c.backup_jobs[1].attachments.len(), 1);
    assert_eq!(c.backup_jobs[1].attachments[0].id, 41);
    assert_eq!(c.delete_jobs[0].timestamp_ms, NOW - 2 * MS_PER_DAY);
}

#[test]
fn classified_messages_start_empty() {
    let c = ClassifiedMessages::new();
    assert!(c.delete_jobs.is_empty());
    assert!(c.backup_jobs.is_empty());
}

fn job(id: u64, age_days: i64) -> DeleteJob {
    DeleteJob { message_id: id, timestamp_ms: NOW - age_days * MS_PER_DAY }
}

#[test]
fn young_jobs_go_in_bulk() {
    let jobs = vec![job(1, 1), job(2, 20), job(3, 2), job(4, 14), job(5, 15)];
    let plan = plan_deletes(&jobs, NOW);
    assert_eq!(plan.bulk_batches, vec![vec![1, 3, 4]]);
    assert_eq!(plan.individual, vec![2, 5]);
}

#[test]
fn a_single_young_job_is_deleted_individually() {
    let jobs = vec![job(1, 20), job(2, 1), job(3, 30)];
    let plan = plan_deletes(&jobs, NOW);
    assert!(plan.bulk_batches.is_empty());
    assert_eq!(plan.individual, vec![1, 2, 3]);
}

#[test]
fn too_few_young_jobs_keep_job_order() {
    let plan = plan_deletes(&vec![job(1, 1), job(2, 20)], NOW);
    assert!(plan.bulk_batches.is_empty());
    assert_eq!(plan.individual, vec![1, 2]);
}

#[test]
fn bulk_batches_hold_at_most_one_hundred() {
    let jobs: Vec<DeleteJob> = (0..250).map(|i| job(i, 1)).collect();
    let plan = plan_deletes(&jobs, NOW);
    assert_eq!(plan.bulk_batches.len(), 3);
    assert_eq!(plan.bulk_batches[0].len(), 100);
    assert_eq!(plan.bulk_batches[1].len(), 100);
    assert_eq!(plan.bulk_batches[2].len(), 50);
    assert_eq!(plan.bulk_batches[2][0], 200);
    assert!(plan.individual.is_empty());
}

#[test]
fn no_jobs_no_deletions() {
    let plan = plan_deletes(&Vec::new(), NOW);
    assert!(plan.bulk_batches.is_empty());
    assert!(plan.individual.is_empty());
}

fn page(first_id: u64, count: u64, age_days: i64) -> Vec<ChatMessage> {
    (0..count).map(|k| message(first_id - k, age_days, vec![])).collect()
}

#[test]
fn short_page_ends_history_and_clears_cursor() {
    let mut p = Pagination::new(Some(1_000));
    assert!(p.wants_page());
    p.accept_page(page(999, 5, 10), 1, NOW);
    assert!(!p.wants_page());
    assert_eq!(p.cursor(), Some(995));
    assert_eq!(p.cursor_to_save(), None);
    assert_eq!(p.into_expired().len(), 5);
}

#[test]
fn empty_page_ends_history() {
    let mut p = Pagination::new(None);
    p.accept_page(Vec::new(), 1, NOW);
    assert!(!p.wants_page());
    assert_eq!(p.cursor_to_save(), None);
}

#[test]
fn full_pages_move_cursor_to_older_messages() {
    let mut p = Pagination::new(None);
    p.accept_page(page(10_000, 100, 0), 1, NOW);
    assert!(p.wants_page());
    assert_eq!(p.cursor(), Some(9_901));
    p.accept_page(page(9_900, 100, 0), 1, NOW);
    assert_eq!(p.cursor(), Some(9_801));
    assert_eq!(p.cursor_to_save(), Some(9_801));
    assert!(p.into_expired().is_empty());
}

#[test]
fn pagination_stops_after_round_limit() {
    let mut p = Pagination::new(None);
    let mut top = 100_000;
    let mut rounds = 0;
    while p.wants_page() {
        p.accept_page(page(top, 100, 0), 1, NOW);
        top -= 100;
        rounds += 1;
    }
    assert_eq!(rounds, 10);
    assert_eq!(p.cursor_to_save(), Some(99_001));
}

#[test]
fn reaching_the_target_truncates_and_moves_cursor() {
    let mut p = Pagination::new(None);
    let mut first = page(10_000, 100, 0);
    for m in first.iter_mut().skip(40) {
        m.timestamp_ms = NOW - 5 * MS_PER_DAY;
    }
    p.accept_page(first, 1, NOW);
    assert!(p.wants_page());
    p.accept_page(page(9_900, 100, 5), 1, NOW);
    assert!(!p.wants_page());
    assert_eq!(p.cursor(), Some(9_861));
    assert_eq!(p.cursor_to_save(), Some(9_861));
    let expired = p.into_expired();
    assert_eq!(expired.len(), 100);
    assert_eq!(expired[0].id, 9_960);
    assert_eq!(expired[99].id, 9_861);
}

#[test]
fn one_cleanup_pass_deletes_text_and_queues_image() {
    let text = message(2, 2, vec![]);
    let image = message(1, 2, vec![attachment(11, Some("image/png"))]);
    let mut p = Pagination::new(None);
    p.accept_page(vec![text, image], 1, NOW);
    assert_eq!(p.cursor_to_save(), None);
    let classified = classify_messages(p.into_expired());

    let plan = plan_deletes(&classified.delete_jobs, NOW);
    let mut deleted: Vec<u64> = plan.individual.clone();
    for batch in &plan.bulk_batches {
        deleted.extend(batch.iter().copied());
    }
    assert_eq!(deleted, vec![2]);
    assert!(!deleted.contains(&1));

    let mut queue = BackupQueue::new();
    let job = &classified.backup_jobs[0];
    let files = vec![DownloadedFile {
        local_path: "./media_backups/2023-11-12/11_file11".to_string(),
        original_filename: "file11".to_string(),
    }];
    enqueue_downloads(&mut queue, 42, job, &files);
    let entries = queue.snapshot();
    assert_eq!(entries.len(), 1);
    assert_eq!(entries[0].message_id, 1);
    assert_eq!(entries[0].channel_id, 42);
    assert_eq!(entries[0].retry_count, 0);
    assert!(matches!(entries[0].status, BackupStatus::Pending));
    assert_eq!(queue.get_pending().len(), 1);
}
