use disk_visualizer::incremental_rescan::IncrementalRescanTarget;
use disk_visualizer::incremental_storage::{target_covers, validate_incremental_request, IncrementalEntry};
use disk_visualizer::index_checkpoint::IndexCheckpoint;
use disk_visualizer::paths::{
    normalize_pieces_in, path_file_name_in, path_is_absolute_in, path_parent_in,
    path_strip_prefix_in, render_relative_pieces_in, PathStyle,
};
use disk_visualizer::scan_jobs::ScanManager;
use disk_visualizer::scanner::ScanProgress;
use disk_visualizer::storage::{indexed_entry, ScanRepository};

const WIN: PathStyle = PathStyle::Windows;

fn some(s: &str) -> Option<String> {
    Some(s.to_owned())
}

#[test]
fn windows_absolute_paths_need_a_prefix_and_a_root() {
    assert!(path_is_absolute_in(WIN, r"C:\Users\me"));
    assert!(path_is_absolute_in(WIN, "C:/Users/me"));
    assert!(path_is_absolute_in(WIN, r"\\server\share"));
    assert!(path_is_absolute_in(WIN, r"\\server\share\dir"));
    assert!(path_is_absolute_in(WIN, r"\\?\C:"));
    assert!(path_is_absolute_in(WIN, r"\\?\C:\dir"));
    assert!(path_is_absolute_in(WIN, r"\\.\COM1"));
    assert!(!path_is_absolute_in(WIN, "C:foo"));
    assert!(!path_is_absolute_in(WIN, "C:"));
    assert!(!path_is_absolute_in(WIN, r"\x"));
    assert!(!path_is_absolute_in(WIN, "/tmp/sample"));
    assert!(!path_is_absolute_in(WIN, r"\\server"));
    assert!(!path_is_absolute_in(WIN, "relative"));
    assert!(path_is_absolute_in(PathStyle::Unix, "/tmp/sample"));
    assert!(!path_is_absolute_in(PathStyle::Unix, r"C:\Users\me"));
}

#[test]
fn windows_scan_may_start_on_a_drive_path() {
    let manager = ScanManager::new(ScanRepository::new("scans.sqlite3".into()), WIN);
    assert_eq!(manager.check_start(r"C:\Users\me"), Ok(()));
    assert_eq!(
        manager.check_start("/tmp/sample"),
        Err("スキャン対象には絶対パスを指定してください".to_owned())
    );
}

#[test]
fn windows_file_name_and_parent() {
    assert_eq!(path_file_name_in(WIN, r"C:\scan\nested\file.bin"), some("file.bin"));
    assert_eq!(path_file_name_in(WIN, "C:/scan/nested/file.bin"), some("file.bin"));
    assert_eq!(path_file_name_in(WIN, r"C:\scan\.."), None);
    assert_eq!(path_file_name_in(WIN, r"C:\"), None);
    assert_eq!(path_file_name_in(WIN, r"\\?\C:\a/b"), some("a/b"));
    assert_eq!(path_parent_in(WIN, r"C:\scan\nested"), some(r"C:\scan"));
    assert_eq!(path_parent_in(WIN, r"C:\a"), some(r"C:\"));
    assert_eq!(path_parent_in(WIN, r"C:\"), None);
    assert_eq!(path_parent_in(WIN, "C:"), None);
    assert_eq!(path_parent_in(WIN, "C:foo"), some("C:"));
    assert_eq!(path_parent_in(WIN, r"\\server\share\dir"), some(r"\\server\share\"));
    assert_eq!(path_parent_in(WIN, r"\\server\share"), None);
}

#[test]
fn windows_strip_prefix_compares_components() {
    assert_eq!(path_strip_prefix_in(WIN, r"C:\scan\a\b.txt", r"C:\scan"), some(r"a\b.txt"));
    assert_eq!(path_strip_prefix_in(WIN, r"c:\scan\a", r"C:\scan"), some("a"));
    assert_eq!(path_strip_prefix_in(WIN, r"C:\scan", r"C:\scan"), some(""));
    assert_eq!(path_strip_prefix_in(WIN, r"C:\scanner\a", r"C:\scan"), None);
    assert_eq!(path_strip_prefix_in(WIN, r"D:\scan\a", r"C:\scan"), None);
    assert_eq!(path_strip_prefix_in(WIN, r"\\server\share\x", r"\\server\share"), some("x"));
    assert_eq!(path_strip_prefix_in(PathStyle::Unix, r"C:\scan\a", r"C:\scan"), None);
}

#[test]
fn windows_relative_paths_normalize_with_backslashes() {
    let ns = normalize_pieces_in(WIN, r".\dir/sub\.\file").unwrap();
    assert_eq!(render_relative_pieces_in(WIN, &ns), r"dir\sub\file");
    let dot = normalize_pieces_in(WIN, "./").unwrap();
    assert_eq!(render_relative_pieces_in(WIN, &dot), ".");
    assert!(normalize_pieces_in(WIN, "C:foo").is_none());
    assert!(normalize_pieces_in(WIN, r"..\x").is_none());
    assert!(normalize_pieces_in(WIN, r"\x").is_none());
    assert!(normalize_pieces_in(WIN, "").is_none());
}

#[test]
fn windows_indexed_entry_uses_backslash_paths() {
    let progress = ScanProgress {
        path: r"C:\scan\nested\file.bin".to_owned(),
        file_count: 1,
        directory_count: 0,
        skipped_count: 0,
        skip_reason: None,
        counted_size_bytes: 10,
        logical_size_bytes: 10,
        allocated_size_bytes: None,
        file_identity: None,
        volume_identity: None,
        modified_at: None,
    };
    let entry = indexed_entry(&progress, r"C:\scan", WIN);
    assert_eq!(entry.name, "file.bin");
    assert_eq!(entry.parent_path, some(r"C:\scan\nested"));
    assert_eq!(entry.relative_path, r"nested\file.bin");
    let unix = indexed_entry(&progress, r"C:\scan", PathStyle::Unix);
    assert_eq!(unix.name, r"C:\scan\nested\file.bin");
    assert_eq!(unix.relative_path, r"C:\scan\nested\file.bin");
}

fn target(path: &str, recursive: bool) -> IncrementalRescanTarget {
    IncrementalRescanTarget { relative_path: path.into(), recursive }
}

fn entry(path: &str) -> IncrementalEntry {
    IncrementalEntry {
        path: path.into(),
        file_count: 1,
        directory_count: 0,
        skipped_count: 0,
        skip_reason: None,
        counted_size_bytes: 1,
        logical_size_bytes: 1,
        allocated_size_bytes: None,
        file_identity: None,
        volume_identity: None,
        modified_at: None,
    }
}

#[test]
fn windows_incremental_request_on_a_drive_root() {
    let checkpoint = IndexCheckpoint {
        root_path: r"C:\scan".to_owned(),
        platform: "windows".to_owned(),
        volume_identity: "v".to_owned(),
        root_identity: "r".to_owned(),
        history_source: "usn".to_owned(),
        history_token: "t".to_owned(),
        updated_at: 1,
    };
    let targets = validate_incremental_request(
        r"C:\scan",
        &[target("dir/", true), target(r".\old", false)],
        &[entry(r"C:\scan\dir\x"), entry(r"C:\scan\old")],
        &checkpoint,
        WIN,
    )
    .unwrap();
    assert_eq!(targets, vec![target("dir", true), target("old", false)]);
    assert_eq!(
        validate_incremental_request(r"C:\scan", &[target("C:dir", true)], &[], &checkpoint, WIN),
        Err("部分再走査targetが不正です".to_owned())
    );
    assert_eq!(
        validate_incremental_request(r"C:\scan", &[target("dir", true)], &[entry(r"D:\scan\dir\x")], &checkpoint, WIN),
        Err("部分再走査結果が走査root外を指しています".to_owned())
    );
    assert_eq!(
        validate_incremental_request(
            r"C:\scan",
            &[target("dir", true)],
            &[entry(r"C:\scan\dir\x"), entry("C:/scan/dir/x")],
            &checkpoint,
            WIN
        ),
        Err("部分再走査結果に重複pathがあります".to_owned())
    );
}

#[test]
fn windows_targets_cover_by_components() {
    assert!(target_covers(&target("dir", true), r"dir\file", WIN));
    assert!(target_covers(&target("dir", true), "dir/file", WIN));
    assert!(!target_covers(&target("dir", false), r"dir\file", WIN));
    assert!(!target_covers(&target("dir", true), "directory", WIN));
    assert!(target_covers(&target(".", true), r"any\thing", WIN));
}

#[test]
fn windows_normalization_round_trips_unless_a_drive_leads() {
    let ns = normalize_pieces_in(WIN, r".\dir/sub\.\file").unwrap();
    let text = render_relative_pieces_in(WIN, &ns);
    assert_eq!(normalize_pieces_in(WIN, &text), Some(ns));
    let drive_like = normalize_pieces_in(WIN, r".\C:").unwrap();
    let text = render_relative_pieces_in(WIN, &drive_like);
    assert_eq!(text, "C:");
    assert!(normalize_pieces_in(WIN, &text).is_none());
}
