use std::sync::atomic::Ordering;
use std::sync::Arc;

use vhm_core::scan_coordinator::{format_job_id, ScanCoordinator, ScanJobStatus, ScanProgressEvent};

#[test]
fn concurrent_begin_allows_exactly_one_active_job() {
    let coordinator = Arc::new(ScanCoordinator::default());
    let first = coordinator.begin().expect("first scan should start");
    let conflict = match coordinator.begin() {
        Ok(_) => panic!("second scan should be rejected"),
        Err(conflict) => conflict,
    };

    assert_eq!(conflict.job_id, first.job_id());
    assert_eq!(coordinator.status().status, ScanJobStatus::Running);

    first.finish(ScanJobStatus::Completed, "done");
    let second = coordinator.begin().expect("a terminal scan should release the coordinator");
    assert_ne!(second.job_id(), conflict.job_id);
}

#[test]
fn only_the_active_job_id_can_request_cancellation() {
    let coordinator = Arc::new(ScanCoordinator::default());
    let lease = coordinator.begin().expect("scan should start");

    let stale = coordinator.request_cancel("scan-stale");
    assert!(!stale.accepted);
    assert_eq!(stale.reason, "job-mismatch");
    assert!(!lease.cancellation().load(Ordering::Acquire));

    let accepted = coordinator.request_cancel(lease.job_id());
    assert!(accepted.accepted);
    assert_eq!(accepted.status.status, ScanJobStatus::Cancelling);
    assert!(lease.cancellation().load(Ordering::Acquire));
    lease.finish(ScanJobStatus::Cancelled, "cancelled");
    coordinator.begin().expect("a cancelled scan should release the coordinator");
}

#[test]
fn dropping_a_lease_is_panic_safe_and_releases_the_coordinator() {
    let coordinator = Arc::new(ScanCoordinator::default());
    let first_job_id = {
        let lease = coordinator.begin().expect("scan should start");
        lease.job_id().to_string()
    };

    let status = coordinator.status();
    assert_eq!(status.job_id.as_deref(), Some(first_job_id.as_str()));
    assert_eq!(status.status, ScanJobStatus::Failed);
    assert!(status.terminal);
    coordinator.begin().expect("dropped lease should release the coordinator");
}

#[test]
fn stale_job_progress_cannot_replace_the_active_snapshot() {
    let coordinator = Arc::new(ScanCoordinator::default());
    let lease = coordinator.begin().expect("scan should start");
    let event = ScanProgressEvent {
        job_id: "scan-stale".to_string(),
        phase: "scanning".to_string(),
        current_root: Some("stale".to_string()),
        source: None,
        processed: 99,
        total: Some(100),
        message: "stale".to_string(),
        terminal: false,
        status: ScanJobStatus::Running,
        source_dir_count: 0,
        clip_group_count: 0,
        clip_file_count: 0,
    };

    assert!(!coordinator.record_event(&event));
    assert_eq!(coordinator.status().job_id.as_deref(), Some(lease.job_id()));
    assert_eq!(coordinator.status().processed, 0);
}

#[test]
fn active_job_progress_updates_the_snapshot() {
    let coordinator = Arc::new(ScanCoordinator::default());
    let lease = coordinator.begin().expect("scan should start");
    let event = ScanProgressEvent {
        job_id: lease.job_id().to_string(),
        phase: "scanning".to_string(),
        current_root: Some("D:/videos".to_string()),
        source: None,
        processed: 5,
        total: Some(10),
        message: "scanning".to_string(),
        terminal: false,
        status: ScanJobStatus::Running,
        source_dir_count: 1,
        clip_group_count: 2,
        clip_file_count: 3,
    };
    assert!(coordinator.record_event(&event));
    let status = coordinator.status();
    assert_eq!(status.processed, 5);
    assert_eq!(status.total, Some(10));
    assert_eq!(status.phase.as_deref(), Some("scanning"));
}

#[test]
fn job_ids_name_the_time_and_the_sequence() {
    assert_eq!(format_job_id(1700000000123, 7), "scan-1700000000123-7");
    assert_eq!(format_job_id(0, 0), "scan-0-0");
}

#[test]
fn terminal_statuses_are_reported_as_terminal() {
    assert!(ScanJobStatus::Completed.is_terminal());
    assert!(ScanJobStatus::Failed.is_terminal());
    assert!(!ScanJobStatus::Running.is_terminal());
    assert_eq!(ScanJobStatus::Cancelling.as_str(), "cancelling");
}

#[test]
fn refused_cancellations_say_why() {
    let coordinator = Arc::new(ScanCoordinator::default());
    let idle = coordinator.request_cancel("scan-1-1");
    assert!(!idle.accepted);
    assert_eq!(idle.reason, "not-running");
    assert_eq!(idle.active_job_id, None);

    let lease = coordinator.begin().expect("scan should start");
    let mismatch = coordinator.request_cancel("scan-1-1");
    assert!(!mismatch.accepted);
    assert_eq!(mismatch.reason, "job-mismatch");
    assert_eq!(mismatch.active_job_id.as_deref(), Some(lease.job_id()));
    assert!(lease.job_id().starts_with("scan-"));

    let conflict = match coordinator.begin() {
        Ok(_) => panic!("second scan should be rejected"),
        Err(conflict) => conflict,
    };
    assert!(conflict.job_id.starts_with("scan-"));
    assert_eq!(conflict.job_id.matches('-').count(), 2);
    lease.finish(ScanJobStatus::Completed, "done");
}
