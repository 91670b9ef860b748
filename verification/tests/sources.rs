use vhm_core::sources::{check_source_scan_status, completed_source_ids, source_not_found};

#[test]
fn completed_ids_are_positive_unique_and_sorted() {
    assert_eq!(completed_source_ids(&[5, 0, 3, -2, 5, 1]), vec![1, 3, 5]);
    assert!(completed_source_ids(&[0, -1]).is_empty());
    assert!(completed_source_ids(&[]).is_empty());
}

#[test]
fn only_partial_and_unavailable_scans_are_failure_states() {
    assert!(check_source_scan_status("partial").is_ok());
    assert!(check_source_scan_status("unavailable").is_ok());
    assert_eq!(
        check_source_scan_status("failed").unwrap_err(),
        "Unsupported source scan status: failed"
    );
    assert_eq!(source_not_found(42), "Source id 42 was not found");
    assert_eq!(source_not_found(-3), "Source id -3 was not found");
}
