use cleanup_bot::onedrive::{
    auth_error_message, build_remote_path, compose_remote_path, content_range, plan_upload,
    upload_status_ok, ByteRange, DeviceCodePoll, PollDecision, StoredTokens, UploadPlan, CHUNK_SIZE,
    SIMPLE_UPLOAD_LIMIT,
};

#[test]
fn remote_path_uses_directory_date() {
    let p = build_remote_path("/discord-backups/", "./media_backups/2024-03-07/123_cat.png", (2030, 1, 1));
    assert_eq!(p, "/discord-backups/2024/03/07/123_cat.png");
}

#[test]
fn remote_path_falls_back_to_today() {
    let p = build_remote_path("/backups", "./media_backups/misc/cat.png", (2025, 11, 5));
    assert_eq!(p, "/backups/2025/11/05/cat.png");
    let q = build_remote_path("/backups", "./media_backups/2024-02-30/cat.png", (2025, 11, 5));
    assert_eq!(q, "/backups/2025/11/05/cat.png");
}

#[test]
fn remote_path_without_file_name_is_unknown() {
    let p = build_remote_path("/b", "/", (2025, 1, 2));
    assert_eq!(p, "/b/2025/01/02/unknown");
}

#[test]
fn compose_pads_and_trims() {
    let p = compose_remote_path("f///", &Some("n".to_string()), Some((5, 3, 9)), (2025, 1, 1));
    assert_eq!(p, "f/0005/03/09/n");
    let q = compose_remote_path("", &None, None, (-44, 3, 15));
    assert_eq!(q, "/-044/03/15/unknown");
    let r = compose_remote_path("/a", &Some("z".to_string()), Some((12345, 12, 31)), (1, 1, 1));
    assert_eq!(r, "/a/12345/12/31/z");
}

#[test]
fn small_file_is_one_request() {
    assert!(matches!(plan_upload(0), UploadPlan::Simple));
    assert!(matches!(plan_upload(1024), UploadPlan::Simple));
    assert!(matches!(plan_upload(SIMPLE_UPLOAD_LIMIT - 1), UploadPlan::Simple));
}

#[test]
fn large_file_is_sent_in_chunks() {
    let size: u64 = 25 * 1024 * 1024 + 3;
    match plan_upload(size) {
        UploadPlan::Resumable { chunks } => {
            assert_eq!(chunks.len() as u64, (size + CHUNK_SIZE - 1) / CHUNK_SIZE);
            assert_eq!(chunks.len(), 3);
            assert_eq!(chunks[0].start, 0);
            assert_eq!(chunks[0].end, CHUNK_SIZE - 1);
            assert_eq!(chunks[1].start, CHUNK_SIZE);
            assert_eq!(chunks[2].start, 2 * CHUNK_SIZE);
            assert_eq!(chunks[2].end, size - 1);
            let header = content_range(&chunks[2], size);
            assert_eq!(header, format!("bytes {}-{}/{}", 2 * CHUNK_SIZE, size - 1, size));
        }
        UploadPlan::Simple => panic!("expected a resumable upload"),
    }
}

#[test]
fn threshold_file_is_one_chunk() {
    match plan_upload(SIMPLE_UPLOAD_LIMIT) {
        UploadPlan::Resumable { chunks } => {
            assert_eq!(chunks.len(), 1);
            assert_eq!(chunks[0].start, 0);
            assert_eq!(chunks[0].end, SIMPLE_UPLOAD_LIMIT - 1);
        }
        UploadPlan::Simple => panic!("expected a resumable upload"),
    }
}

#[test]
fn exact_multiple_of_chunk_size() {
    match plan_upload(2 * CHUNK_SIZE) {
        UploadPlan::Resumable { chunks } => {
            assert_eq!(chunks.len(), 2);
            assert_eq!(chunks[1].end, 2 * CHUNK_SIZE - 1);
        }
        UploadPlan::Simple => panic!("expected a resumable upload"),
    }
}

#[test]
fn content_range_text() {
    let r = ByteRange { start: 0, end: 10_485_759 };
    assert_eq!(content_range(&r, 20_000_000), "bytes 0-10485759/20000000");
}

#[test]
fn upload_status_accepts_success_and_accepted() {
    assert!(upload_status_ok(200));
    assert!(upload_status_ok(201));
    assert!(upload_status_ok(202));
    assert!(!upload_status_ok(199));
    assert!(!upload_status_ok(300));
    assert!(!upload_status_ok(401));
    assert!(!upload_status_ok(500));
}

#[test]
fn token_refresh_within_five_minutes_of_expiry() {
    let now = 1_000_000_000;
    let t = StoredTokens::granted("a".to_string(), "r".to_string(), 3600, now);
    assert_eq!(t.expires_at_ms, now + 3_600_000);
    assert!(!t.needs_refresh(now));
    assert!(!t.needs_refresh(now + 3_600_000 - 300_001));
    assert!(t.needs_refresh(now + 3_600_000 - 300_000));
    assert!(t.needs_refresh(now + 4_000_000));
}

#[test]
fn device_poll_handles_error_codes() {
    let mut p = DeviceCodePoll::new(5, 900, 1_000);
    assert_eq!(p.deadline_ms, 901_000);
    assert!(matches!(p.on_error("authorization_pending"), PollDecision::KeepPolling));
    assert_eq!(p.interval_secs, 5);
    assert!(matches!(p.on_error("slow_down"), PollDecision::KeepPolling));
    assert_eq!(p.interval_secs, 10);
    assert!(matches!(p.on_error("expired_token"), PollDecision::Fail));
    assert_eq!(p.interval_secs, 10);
    assert!(!p.is_expired(901_000));
    assert!(p.is_expired(901_001));
}

#[test]
fn auth_error_prefers_description() {
    let e = "invalid_grant".to_string();
    assert_eq!(auth_error_message(&e, &Some("Token expired".to_string())), "Token expired");
    assert_eq!(auth_error_message(&e, &None), "invalid_grant");
}
