use vhm_core::file_identity::StableFileIdentity;
use vhm_core::reconnect::concrete_file_identity_changed;

#[test]
fn database_identity_parts_require_all_three_valid_values() {
    assert!(StableFileIdentity::from_database_parts(Some(1), Some(2), Some(3)).is_some());
    assert!(StableFileIdentity::from_database_parts(Some(1), None, Some(3)).is_none());
    assert!(StableFileIdentity::from_database_parts(Some(-1), Some(2), Some(3)).is_none());
    assert!(StableFileIdentity::from_database_parts(Some(i64::from(u32::MAX) + 1), Some(2), Some(3)).is_none());
}

#[test]
fn only_two_different_concrete_identities_are_a_candidate_change() {
    let first = StableFileIdentity { volume_serial: 1, file_index_high: 2, file_index_low: 3 };
    let second = StableFileIdentity { volume_serial: 1, file_index_high: 2, file_index_low: 4 };
    assert!(concrete_file_identity_changed(Some(first), Some(second)));
    assert!(!concrete_file_identity_changed(Some(first), Some(first)));
    assert!(!concrete_file_identity_changed(Some(first), None));
    assert!(!concrete_file_identity_changed(None, Some(first)));
}

#[test]
fn database_parts_round_trip_through_an_identity() {
    let identity = StableFileIdentity::from_database_parts(Some(7), Some(0), Some(i64::from(u32::MAX))).unwrap();
    assert_eq!(identity.database_parts(), (7, 0, i64::from(u32::MAX)));
}
