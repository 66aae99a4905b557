use disk_visualizer::paths::PathStyle;
use disk_visualizer::scanner::{ScanProgress, ScanSummary};
use disk_visualizer::storage::{
    elapsed_to_i64, indexed_entry, optional_to_i64, purge_cutoff, quick_check_passed,
    saved_scans, schema_step, stored_counts, stored_totals, to_i64, to_u64, SchemaStep,
    StreamingScanWriter, INCOMPLETE_RETENTION_SECONDS, WRITE_BATCH_SIZE,
};

fn progress(path: &str) -> ScanProgress {
    ScanProgress {
        path: path.to_owned(),
        file_count: 1,
        directory_count: 0,
        skipped_count: 0,
        skip_reason: None,
        counted_size_bytes: 1024,
        logical_size_bytes: 1024,
        allocated_size_bytes: Some(4096),
        file_identity: Some("42".to_owned()),
        volume_identity: Some("7".to_owned()),
        modified_at: Some(1234),
    }
}

#[test]
fn writer_buffer_never_holds_a_full_batch() {
    let mut writer = StreamingScanWriter::new(1, "/tmp/sample".to_owned(), PathStyle::Unix);
    let mut written = 0;
    for index in 0..(WRITE_BATCH_SIZE * 2 + 3) {
        if let Some(batch) = writer.record(&progress(&format!("/tmp/sample/{index}.bin"))) {
            assert_eq!(batch.len(), WRITE_BATCH_SIZE);
            written += batch.len();
        }
        assert!(writer.pending_len() < WRITE_BATCH_SIZE);
    }
    assert_eq!(written, WRITE_BATCH_SIZE * 2);
    assert_eq!(writer.pending_len(), 3);
    let rest = writer.flush().unwrap();
    assert_eq!(rest.len(), 3);
    assert_eq!(writer.pending_len(), 0);
    assert_eq!(writer.complete(), Ok(()));
}

#[test]
fn writer_stops_writing_after_a_failure() {
    let mut writer = StreamingScanWriter::new(1, "/tmp/sample".to_owned(), PathStyle::Unix);
    writer.record(&progress("/tmp/sample/a.bin"));
    writer.fail_write("disk full".to_owned());
    assert!(writer.flush().is_none());
    assert_eq!(writer.complete(), Err("disk full".to_owned()));
    let mut empty = progress("/tmp/sample/nothing");
    empty.file_count = 0;
    assert!(writer.record(&empty).is_none());
    assert_eq!(writer.pending_len(), 0);
    assert_eq!(writer.interrupt(true), "failed");
    assert_eq!(writer.interrupt(false), "interrupted");
}

#[test]
fn entries_are_stored_relative_to_the_root() {
    let entry = indexed_entry(&progress("/tmp/sample/nested/file.bin"), "/tmp/sample", PathStyle::Unix);
    assert_eq!(entry.name, "file.bin");
    assert_eq!(entry.parent_path, Some("/tmp/sample/nested".to_owned()));
    assert_eq!(entry.relative_path, "nested/file.bin");
    assert_eq!(entry.entry_type, "file");
    let mut skipped = progress("/tmp/sample/linked");
    skipped.file_count = 0;
    skipped.skipped_count = 1;
    skipped.skip_reason = Some("link_not_followed");
    let entry = indexed_entry(&skipped, "/tmp/sample", PathStyle::Unix);
    assert_eq!(entry.entry_type, "other");
    assert_eq!(entry.skip_reason, Some("link_not_followed"));
    let outside = indexed_entry(&progress("/elsewhere/x"), "/tmp/sample", PathStyle::Unix);
    assert_eq!(outside.relative_path, "/elsewhere/x");
}

#[test]
fn counts_convert_for_storage() {
    assert_eq!(to_i64(5, "ファイル数"), Ok(5));
    assert_eq!(
        to_i64(u64::MAX, "ファイル数"),
        Err("ファイル数が保存可能な範囲を超えています".to_owned())
    );
    assert_eq!(optional_to_i64(None, "x"), Ok(None));
    assert_eq!(optional_to_i64(Some(9), "x"), Ok(Some(9)));
    assert_eq!(to_u64(-1, "合計サイズ"), Err("合計サイズに不正な負数が保存されています".to_owned()));
    assert_eq!(elapsed_to_i64(12), Ok(12));
    assert_eq!(
        elapsed_to_i64(u128::MAX),
        Err("経過時間が保存可能な範囲を超えています".to_owned())
    );
    let entry = indexed_entry(&progress("/tmp/sample/a"), "/tmp/sample", PathStyle::Unix);
    let counts = stored_counts(&entry).unwrap();
    assert_eq!(counts.size_bytes, 1024);
    assert_eq!(counts.allocated_size, Some(4096));
    assert_eq!(counts.is_directory, 0);
}

#[test]
fn session_totals_convert_for_storage() {
    let summary = ScanSummary {
        root_path: "/tmp/sample".to_owned(),
        total_size_bytes: 2048,
        allocated_size_bytes: 0,
        file_count: 2,
        directory_count: 1,
        skipped_count: 0,
        hard_link_duplicate_count: 1,
        sparse_file_count: 0,
        compressed_file_count: 0,
        elapsed_milliseconds: 3,
        entries: vec![],
        entries_truncated: false,
    };
    let totals = stored_totals(&summary).unwrap();
    assert_eq!(totals.total_size_bytes, 2048);
    assert_eq!(totals.elapsed_milliseconds, 3);
}

#[test]
fn lists_saved_scans_and_rejects_negative_counts() {
    let scans = saved_scans(vec![
        (2, "/b".to_owned(), 10, 1, 0, 0, 200),
        (1, "/a".to_owned(), 20, 2, 1, 0, 100),
    ])
    .unwrap();
    assert_eq!(scans.len(), 2);
    assert_eq!(scans[0].id, 2);
    assert_eq!(scans[1].total_size_bytes, 20);
    assert_eq!(
        saved_scans(vec![(1, "/a".to_owned(), 20, -2, 1, 0, 100)]),
        Err("ファイル数に不正な負数が保存されています".to_owned())
    );
}

#[test]
fn schema_versions_and_maintenance_rules() {
    assert_eq!(schema_step(0), Ok(SchemaStep::CreateCurrent));
    assert_eq!(
        schema_step(2),
        Ok(SchemaStep::BackupAndMigrate { backup_extension: "sqlite3.v2-backup", from_version: 2 })
    );
    assert_eq!(schema_step(4), Ok(SchemaStep::Current));
    assert_eq!(
        schema_step(9),
        Err("未対応のスキャン履歴バージョンです: 9".to_owned())
    );
    assert_eq!(
        schema_step(-1),
        Err("未対応のスキャン履歴バージョンです: -1".to_owned())
    );
    assert_eq!(purge_cutoff(1_000_000), 1_000_000 - INCOMPLETE_RETENTION_SECONDS);
    assert_eq!(INCOMPLETE_RETENTION_SECONDS, 7 * 24 * 60 * 60);
    assert_eq!(purge_cutoff(i64::MIN), i64::MIN);
    assert!(quick_check_passed("ok"));
    assert!(!quick_check_passed("*** in database main ***"));
}
