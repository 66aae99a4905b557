use disk_visualizer::change_history::AvailableHistory;
use disk_visualizer::windows_usn::{query_available_history, usn_journal_range, volume_device_path};

#[test]
fn windows_usn_reports_unsupported_platform() {
    assert!(query_available_history("/").is_err());
}

#[test]
fn accepts_only_consistent_journal_ranges() {
    assert_eq!(
        usn_journal_range(7, 10, 20),
        Ok(AvailableHistory::Usn { journal_id: 7, lowest_valid_usn: 10, next_usn: 20 })
    );
    assert_eq!(
        usn_journal_range(7, 20, 20),
        Ok(AvailableHistory::Usn { journal_id: 7, lowest_valid_usn: 20, next_usn: 20 })
    );
    for (journal, lowest, next) in [(0u64, 1i64, 2i64), (7, -1, 2), (7, 3, 2)] {
        assert_eq!(
            usn_journal_range(journal, lowest, next),
            Err("USN Journal metadataの範囲が不正です".to_owned())
        );
    }
}

#[test]
fn drive_roots_name_their_volume_device() {
    assert_eq!(volume_device_path(r"C:\"), Ok(r"\\.\C:".to_owned()));
    assert_eq!(volume_device_path("d:/"), Ok(r"\\.\D:".to_owned()));
    assert_eq!(volume_device_path(r"\\?\e:\"), Ok(r"\\.\E:".to_owned()));
    assert_eq!(volume_device_path(r"\\?\E:"), Ok(r"\\.\E:".to_owned()));
    assert_eq!(
        volume_device_path(r"C:\Users"),
        Err("USN Journalの照会先はdrive rootである必要があります".to_owned())
    );
    assert_eq!(
        volume_device_path("C:"),
        Err("USN Journalの照会先はdrive rootである必要があります".to_owned())
    );
    assert_eq!(
        volume_device_path(r"\\server\share\"),
        Err("USN Journalはローカルdrive rootだけに対応しています".to_owned())
    );
    assert_eq!(
        volume_device_path("/tmp"),
        Err("USN Journalには絶対drive pathが必要です".to_owned())
    );
    assert_eq!(
        volume_device_path("relative"),
        Err("USN Journalには絶対drive pathが必要です".to_owned())
    );
}

#[test]
fn accepts_only_local_drive_roots() {
    assert!(volume_device_path(r"C:\").is_ok());
    assert!(volume_device_path(r"C:\Users").is_err());
    assert!(volume_device_path(r"\\server\share").is_err());
    assert!(volume_device_path("relative").is_err());
}
