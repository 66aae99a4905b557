use disk_visualizer::file_metrics::{
    modified_at_from_secs, plain_metrics, unix_metrics, unix_volume_identity, windows_allocation_size,
    windows_metrics, windows_snapshot_usable, FILE_ATTRIBUTE_COMPRESSED, FILE_ATTRIBUTE_DIRECTORY,
    FILE_ATTRIBUTE_REPARSE_POINT, FILE_ATTRIBUTE_SPARSE_FILE,
};

#[test]
fn unix_allocation_is_blocks_times_512() {
    let m = unix_metrics(16, 8, 42, 7, Some(1234));
    assert_eq!(m.logical_size, 16);
    assert_eq!(m.allocated_size, Some(4096));
    assert_eq!(m.file_identity, Some("42".to_owned()));
    assert_eq!(m.volume_identity, Some("7".to_owned()));
    assert_eq!(m.modified_at, Some(1234));
    assert!(!m.is_sparse);
    assert!(!m.is_compressed);
    let sparse = unix_metrics(1 << 20, 8, 1, 2, None);
    assert!(sparse.is_sparse);
    let huge = unix_metrics(0, u64::MAX, 1, 2, None);
    assert_eq!(huge.allocated_size, Some(u64::MAX));
    assert_eq!(unix_volume_identity(66306), "66306");
}

#[test]
fn modification_times_must_fit_i64() {
    assert_eq!(modified_at_from_secs(1_723_700_000), Some(1_723_700_000));
    assert_eq!(modified_at_from_secs(i64::MAX as u64), Some(i64::MAX));
    assert_eq!(modified_at_from_secs(i64::MAX as u64 + 1), None);
}

#[test]
fn windows_metrics_join_halves_and_read_attributes() {
    let m = windows_metrics(
        FILE_ATTRIBUTE_SPARSE_FILE | FILE_ATTRIBUTE_COMPRESSED,
        1,
        2,
        0,
        99,
        3_000_000_000,
        Some(8192),
        Some(5),
    )
    .unwrap();
    assert_eq!(m.logical_size, (1u64 << 32) + 2);
    assert_eq!(m.file_identity, Some("99".to_owned()));
    assert_eq!(m.volume_identity, Some("3000000000".to_owned()));
    assert_eq!(m.allocated_size, Some(8192));
    assert!(m.is_sparse && m.is_compressed);
    assert!(windows_metrics(FILE_ATTRIBUTE_DIRECTORY, 0, 0, 0, 0, 0, None, None).is_none());
    assert!(windows_snapshot_usable(true, 0));
    assert!(!windows_snapshot_usable(true, FILE_ATTRIBUTE_REPARSE_POINT));
    assert!(!windows_snapshot_usable(false, 0));
    assert_eq!(windows_allocation_size(true, 4096), Some(4096));
    assert_eq!(windows_allocation_size(true, -1), None);
    assert_eq!(windows_allocation_size(false, 4096), None);
}

#[test]
fn plain_metrics_take_length_as_allocation() {
    let m = plain_metrics(10, None);
    assert_eq!(m.allocated_size, Some(10));
    assert!(m.file_identity.is_none());
}
