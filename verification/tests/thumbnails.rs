use vhm_core::thumbnails::{
    check_claim_timestamp, check_unavailable_error_code, claim_is_stale, normalized_clip_ids, thumbnail_fingerprint,
    validate_cache_basename, validate_completion, validate_failure,
};

#[test]
fn fingerprint_hashes_version_path_size_and_time() {
    assert_eq!(
        thumbnail_fingerprint("D:/videos/a.mp4", 1024, Some("2024-01-01T00:00:00Z")),
        "0cb2b42f733ecd8ae6b461d63af38c817f57f5be2900b1398574cba73d4b9dc1"
    );
    assert_eq!(
        thumbnail_fingerprint("D:/videos/a.mp4", -5, None),
        "6778388d5fd0bb92b1ed79905b85062ab780e476d99c28501b6c217c955109b8"
    );
}

#[test]
fn fingerprint_changes_with_the_modification_time() {
    let a = thumbnail_fingerprint("D:/videos/a.mp4", 1024, Some("t1"));
    let b = thumbnail_fingerprint("D:/videos/a.mp4", 1024, Some("t2"));
    assert_ne!(a, b);
    assert_eq!(a.len(), 64);
}

#[test]
fn clip_ids_are_sorted_and_deduplicated() {
    assert_eq!(normalized_clip_ids(&[5, 3, 5, 1]).unwrap(), vec![1, 3, 5]);
    assert_eq!(normalized_clip_ids(&[]).unwrap(), Vec::<i64>::new());
    let many: Vec<i64> = (0..201).collect();
    assert_eq!(
        normalized_clip_ids(&many).unwrap_err(),
        "thumbnail commands accept at most 200 unique clip ids"
    );
    let repeated: Vec<i64> = (0..400).map(|i| i % 200).collect();
    assert_eq!(normalized_clip_ids(&repeated).unwrap().len(), 200);
}

#[test]
fn cache_names_must_be_plain_basenames() {
    assert!(validate_cache_basename("abc.jpg").is_ok());
    assert!(validate_cache_basename("").is_err());
    assert!(validate_cache_basename(" abc.jpg").is_err());
    assert!(validate_cache_basename("..").is_err());
    assert!(validate_cache_basename("a/b.jpg").is_err());
    assert!(validate_cache_basename("a\\b.jpg").is_err());
    assert!(validate_cache_basename(&"x".repeat(256)).is_err());
    assert!(validate_cache_basename(&"x".repeat(255)).is_ok());
    assert_eq!(
        validate_cache_basename(".").unwrap_err(),
        "thumbnail cache file must be a safe basename"
    );
}

use vhm_core::thumbnails::{reconcile_decision, ReconcileAction, ReconcileCandidate};

fn candidate(status: Option<&str>, fingerprint: Option<String>) -> ReconcileCandidate {
    ReconcileCandidate {
        clip_id: 1,
        normalized_path: "d:/v/a.mp4".to_string(),
        size_bytes: 10,
        modified_at: None,
        file_status: "available".to_string(),
        cover_path: None,
        cover_source: "none".to_string(),
        thumbnail_fingerprint: fingerprint,
        thumbnail_status: status.map(str::to_string),
        thumbnail_revision: None,
        thumbnail_error_code: None,
    }
}

#[test]
fn reconciliation_queues_new_and_changed_clips_only() {
    let current = thumbnail_fingerprint("d:/v/a.mp4", 10, None);
    let (fingerprint, action) = reconcile_decision(&candidate(None, None), false, false);
    assert_eq!(fingerprint, current);
    assert_eq!(action, ReconcileAction::Queue);
    assert_eq!(reconcile_decision(&candidate(Some("ready"), Some("old".to_string())), false, false).1, ReconcileAction::Queue);
    assert_eq!(reconcile_decision(&candidate(Some("ready"), Some(current.clone())), false, false).1, ReconcileAction::Skip);
    assert_eq!(reconcile_decision(&candidate(Some("running"), Some(current.clone())), false, false).1, ReconcileAction::AlreadyQueued);
    assert_eq!(reconcile_decision(&candidate(Some("evicted"), Some(current.clone())), true, false).1, ReconcileAction::Queue);
    assert_eq!(reconcile_decision(&candidate(Some("evicted"), Some(current.clone())), false, false).1, ReconcileAction::Skip);
    assert_eq!(reconcile_decision(&candidate(Some("failed"), Some(current.clone())), false, true).1, ReconcileAction::Queue);
    let mut covered = candidate(Some("ready"), Some(current.clone()));
    covered.cover_source = "file".to_string();
    covered.cover_path = Some("d:/v/cover-a.jpeg".to_string());
    assert_eq!(reconcile_decision(&covered, false, false).1, ReconcileAction::Suppress);
    covered.thumbnail_status = Some("suppressed".to_string());
    assert_eq!(reconcile_decision(&covered, false, false).1, ReconcileAction::KeepSuppressed);
}

#[test]
fn claims_need_a_timestamp_and_stale_claims_are_detected() {
    assert!(check_claim_timestamp("2024-05-01T10:00:00Z").is_ok());
    assert_eq!(
        check_claim_timestamp("  ").unwrap_err(),
        "thumbnail claim timestamp must not be empty"
    );
    let fingerprint = thumbnail_fingerprint("d:/videos/a.mp4", 1024, Some("1700000000"));
    assert!(!claim_is_stale("d:/videos/a.mp4", 1024, Some("1700000000"), &fingerprint));
    assert!(claim_is_stale("d:/videos/a.mp4", 2048, Some("1700000000"), &fingerprint));
    assert!(claim_is_stale("d:/videos/a.mp4", 1024, None, &fingerprint));
}

#[test]
fn completions_are_checked_in_order() {
    assert!(validate_completion(7, "abc", "7-abc.jpg", 10, "abc").is_ok());
    assert_eq!(
        validate_completion(7, "abc", "../x.jpg", 10, "abc").unwrap_err(),
        "thumbnail cache file must be a safe basename"
    );
    assert_eq!(
        validate_completion(7, " ", "7-abc.jpg", 10, "abc").unwrap_err(),
        "thumbnail fingerprint must not be empty"
    );
    assert_eq!(
        validate_completion(7, "abc", "7-abc.jpg", 10, "").unwrap_err(),
        "thumbnail revision must not be empty"
    );
    assert_eq!(
        validate_completion(7, "abc", "7-abc.jpg", 10, "abd").unwrap_err(),
        "thumbnail revision must match the current fingerprint"
    );
    assert_eq!(
        validate_completion(8, "abc", "7-abc.jpg", 10, "abc").unwrap_err(),
        "thumbnail cache file must match the clip fingerprint"
    );
    assert_eq!(
        validate_completion(7, "abc", "7-abc.jpg", 0, "abc").unwrap_err(),
        "thumbnail byte size must be positive"
    );
}

#[test]
fn failures_are_checked_in_order() {
    assert!(validate_failure("pending", "fp", "E_TIMEOUT", true).is_ok());
    assert!(validate_failure("failed", "fp", "E_DECODE", false).is_ok());
    assert_eq!(
        validate_failure("done", "fp", "E", true).unwrap_err(),
        "thumbnail failure status must be pending, failed, or unavailable; got \"done\""
    );
    assert_eq!(
        validate_failure("pending", "fp", "E", false).unwrap_err(),
        "retryable thumbnail failures require next_attempt_at"
    );
    assert_eq!(
        validate_failure("unavailable", "fp", " ", false).unwrap_err(),
        "thumbnail fingerprint and error code must not be empty"
    );
    assert!(check_unavailable_error_code("ffmpeg_missing").is_ok());
    assert_eq!(
        check_unavailable_error_code("").unwrap_err(),
        "thumbnail unavailable error code must not be empty"
    );
}
