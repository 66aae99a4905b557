use disk_visualizer::scan_jobs::{ControlDecision, FinishStep, ScanJobStatus, ScanManager};
use disk_visualizer::scanner::{ScanProgress, ScanSummary};
use disk_visualizer::paths::PathStyle;
use disk_visualizer::storage::ScanRepository;

fn manager() -> ScanManager {
    ScanManager::new(ScanRepository::new("scans.sqlite3".into()), PathStyle::Unix)
}

fn summary() -> ScanSummary {
    ScanSummary {
        root_path: "/tmp/sample".to_owned(),
        total_size_bytes: 1024,
        allocated_size_bytes: 4096,
        file_count: 1,
        directory_count: 0,
        skipped_count: 0,
        hard_link_duplicate_count: 0,
        sparse_file_count: 0,
        compressed_file_count: 0,
        elapsed_milliseconds: 2,
        entries: vec![],
        entries_truncated: false,
    }
}

fn progress(path: &str, size: u64) -> ScanProgress {
    ScanProgress {
        path: path.to_owned(),
        file_count: 1,
        directory_count: 0,
        skipped_count: 0,
        skip_reason: None,
        counted_size_bytes: size,
        logical_size_bytes: size,
        allocated_size_bytes: Some(size),
        file_identity: None,
        volume_identity: None,
        modified_at: None,
    }
}

#[test]
fn starts_only_absolute_paths_and_one_job_at_a_time() {
    let mut manager = manager();
    assert_eq!(
        manager.check_start("relative"),
        Err("スキャン対象には絶対パスを指定してください".to_owned())
    );
    assert_eq!(manager.check_start("/tmp/sample"), Ok(()));
    let job = manager.begin_job("/tmp/sample".to_owned(), 1);
    assert_eq!(job.id, 1);
    assert_eq!(job.status, ScanJobStatus::Running);
    assert_eq!(job.current_path, "/tmp/sample");
    assert_eq!(
        manager.check_start("/tmp/other"),
        Err("別のスキャンが実行中です".to_owned())
    );
    manager.finish(1, FinishStep::Persist, Ok(summary()), Ok(()));
    assert_eq!(manager.check_start("/tmp/other"), Ok(()));
    assert_eq!(manager.begin_job("/tmp/other".to_owned(), 2).id, 2);
}

#[test]
fn pause_resume_and_cancel_follow_the_job_status() {
    let mut manager = manager();
    let id = manager.begin_job("/tmp/sample".to_owned(), 11).id;
    assert_eq!(
        manager.resume(id).map(|s| s.id),
        Err("一時停止中のスキャンだけを再開できます".to_owned())
    );
    let paused = manager.pause(id).unwrap();
    assert_eq!(paused.status, ScanJobStatus::Paused);
    assert_eq!(manager.can_continue(id), ControlDecision::Wait);
    assert_eq!(
        manager.pause(id).map(|s| s.id),
        Err("実行中のスキャンだけを一時停止できます".to_owned())
    );
    let resumed = manager.resume(id).unwrap();
    assert_eq!(resumed.status, ScanJobStatus::Running);
    assert_eq!(manager.can_continue(id), ControlDecision::Continue);
    manager.pause(id).unwrap();
    let cancelled = manager.cancel(id).unwrap();
    assert_eq!(cancelled.status, ScanJobStatus::Paused);
    assert_eq!(manager.can_continue(id), ControlDecision::Stop);
    assert_eq!(manager.finish_step(id, true), FinishStep::Interrupt { failed: false });
    manager.finish(id, FinishStep::Interrupt { failed: false }, Err("スキャンはキャンセルされました".to_owned()), Ok(()));
    let ended = manager.status(id).unwrap();
    assert_eq!(ended.status, ScanJobStatus::Cancelled);
    assert_eq!(ended.current_path, "");
    assert_eq!(
        manager.cancel(id).map(|s| s.id),
        Err("完了済みのスキャンはキャンセルできません".to_owned())
    );
}

#[test]
fn unknown_ids_are_not_found() {
    let mut manager = manager();
    assert_eq!(manager.status(1).map(|s| s.id), Err("スキャンジョブが見つかりません".to_owned()));
    let id = manager.begin_job("/tmp/sample".to_owned(), 12).id;
    assert_eq!(manager.pause(id + 1).map(|s| s.id), Err("スキャンジョブが見つかりません".to_owned()));
    assert_eq!(manager.can_continue(id + 1), ControlDecision::Stop);
}

#[test]
fn progress_accumulates_and_completion_keeps_the_summary() {
    let mut manager = manager();
    let id = manager.begin_job("/tmp/sample".to_owned(), 13).id;
    manager.progress(id, &progress("/tmp/sample/a", 10));
    manager.progress(id, &progress("/tmp/sample/b", 20));
    let running = manager.status(id).unwrap();
    assert_eq!(running.file_count, 2);
    assert_eq!(running.total_size_bytes, 30);
    assert_eq!(running.current_path, "/tmp/sample/b");
    assert_eq!(manager.finish_step(id, true), FinishStep::Persist);
    manager.finish(id, FinishStep::Persist, Ok(summary()), Ok(()));
    let done = manager.status(id).unwrap();
    assert_eq!(done.status, ScanJobStatus::Completed);
    assert_eq!(done.current_path, "");
    assert_eq!(done.result.unwrap().total_size_bytes, 1024);
}

#[test]
fn failures_keep_the_storage_error_first() {
    let mut manager = manager();
    let id = manager.begin_job("/tmp/sample".to_owned(), 14).id;
    assert_eq!(manager.finish_step(id, false), FinishStep::Interrupt { failed: true });
    manager.finish(
        id,
        FinishStep::Interrupt { failed: true },
        Err("scan failed".to_owned()),
        Err("store failed".to_owned()),
    );
    let failed = manager.status(id).unwrap();
    assert_eq!(failed.status, ScanJobStatus::Failed);
    assert_eq!(failed.error, Some("store failed".to_owned()));

    let id = manager.begin_job("/tmp/sample".to_owned(), 15).id;
    manager.finish(id, FinishStep::Interrupt { failed: true }, Err("scan failed".to_owned()), Ok(()));
    assert_eq!(manager.status(id).unwrap().error, Some("scan failed".to_owned()));

    let id = manager.begin_job("/tmp/sample".to_owned(), 16).id;
    manager.finish(id, FinishStep::Persist, Ok(summary()), Err("commit failed".to_owned()));
    let failed = manager.status(id).unwrap();
    assert_eq!(failed.status, ScanJobStatus::Failed);
    assert_eq!(failed.error, Some("commit failed".to_owned()));
    assert!(failed.result.is_none());
}
