use disk_visualizer::file_metrics::FileMetrics;
use disk_visualizer::scanner::{
    account_directory, account_file, crosses_volume, entry_step, finish_summary, link_key,
    retain_largest, skipped, sort_by_size_desc, summary_entry, volume_skip_reason, EntryAction,
    EntryEvent, EntryKind, ScanEntry, Totals, MAX_SUMMARY_ENTRIES,
};

fn entry(name: &str, size: u64) -> ScanEntry {
    ScanEntry {
        name: name.to_owned(),
        path: format!("/root/{name}"),
        size_bytes: size,
        allocated_size_bytes: size,
        file_count: 1,
        directory_count: 0,
        skipped_count: 0,
        hard_link_duplicate_count: 0,
        sparse_file_count: 0,
        compressed_file_count: 0,
        is_directory: false,
    }
}

fn metrics(size: u64) -> FileMetrics {
    FileMetrics {
        logical_size: size,
        allocated_size: Some(4096),
        file_identity: Some("42".to_owned()),
        volume_identity: Some("7".to_owned()),
        modified_at: Some(1234),
        is_sparse: true,
        is_compressed: false,
    }
}

#[test]
fn fails_closed_when_volume_identity_is_missing() {
    assert!(crosses_volume(Some("root"), None));
    assert!(crosses_volume(Some("root"), Some("other")));
    assert!(!crosses_volume(Some("root"), Some("root")));
}

#[test]
fn unknown_root_volume_never_crosses() {
    assert!(!crosses_volume(None, None));
    assert!(!crosses_volume(None, Some("other")));
}

#[test]
fn keeps_at_most_the_bound_and_drops_the_first_smallest() {
    let mut entries = Vec::new();
    for index in 0..MAX_SUMMARY_ENTRIES {
        assert!(!retain_largest(&mut entries, entry(&format!("{index}"), 10 + index as u64)));
    }
    assert_eq!(entries.len(), MAX_SUMMARY_ENTRIES);
    assert!(retain_largest(&mut entries, entry("big", 1_000)));
    assert_eq!(entries.len(), MAX_SUMMARY_ENTRIES);
    assert!(entries.iter().all(|e| e.name != "0"));
    assert_eq!(entries[0].name, "big");
    assert!(retain_largest(&mut entries, entry("tiny", 1)));
    assert!(entries.iter().all(|e| e.name != "tiny"));
    assert_eq!(entries.len(), MAX_SUMMARY_ENTRIES);
}

#[test]
fn sorts_by_decreasing_size_keeping_ties_in_order() {
    let sorted = sort_by_size_desc(vec![entry("a", 1), entry("b", 5), entry("c", 1), entry("d", 9)]);
    let names: Vec<&str> = sorted.iter().map(|e| e.name.as_str()).collect();
    assert_eq!(names, vec!["d", "b", "a", "c"]);
}

#[test]
fn counts_skipped_paths_with_their_reason() {
    let mut totals = Totals::default();
    let progress = skipped(&mut totals, "/root/link".to_owned(), "link_not_followed");
    assert_eq!(totals.skipped, 1);
    assert_eq!(progress.skipped_count, 1);
    assert_eq!(progress.skip_reason, Some("link_not_followed"));
    assert_eq!(progress.path, "/root/link");
    let mut full = Totals { skipped: u64::MAX, ..Totals::default() };
    skipped(&mut full, "/x".to_owned(), "metadata_unavailable");
    assert_eq!(full.skipped, u64::MAX);
}

#[test]
fn duplicate_hard_links_count_once() {
    let mut totals = Totals::default();
    let first = account_file(&mut totals, "/root/a".to_owned(), metrics(16), false);
    let second = account_file(&mut totals, "/root/b".to_owned(), metrics(16), true);
    assert_eq!(totals.files, 2);
    assert_eq!(totals.size, 16);
    assert_eq!(totals.allocated, 4096);
    assert_eq!(totals.hard_link_duplicates, 1);
    assert_eq!(totals.sparse_files, 1);
    assert_eq!(first.counted_size_bytes, 16);
    assert_eq!(second.counted_size_bytes, 0);
    assert_eq!(second.logical_size_bytes, 16);
    assert_eq!(link_key(&metrics(16)), Some("7:42".to_owned()));
    let mut anonymous = metrics(1);
    anonymous.volume_identity = None;
    assert_eq!(link_key(&anonymous), None);
}

#[test]
fn directories_and_volume_boundaries() {
    let mut totals = Totals::default();
    let progress = account_directory(&mut totals, "/root/dir".to_owned(), Some("7".to_owned()));
    assert_eq!(totals.directories, 1);
    assert_eq!(progress.directory_count, 1);
    assert_eq!(progress.volume_identity, Some("7".to_owned()));
    assert_eq!(volume_skip_reason(&Some("8".to_owned())), "different_volume");
    assert_eq!(volume_skip_reason(&None), "volume_identity_unavailable");
}

#[test]
fn totals_add_with_saturation() {
    let mut a = Totals { size: u64::MAX - 1, files: 3, ..Totals::default() };
    let b = Totals { size: 5, files: 4, directories: 2, ..Totals::default() };
    a.accumulate(&b);
    assert_eq!(a.size, u64::MAX);
    assert_eq!(a.files, 7);
    assert_eq!(a.directories, 2);
}

#[test]
fn summary_reports_totals_and_sorted_entries() {
    let item = Totals { size: 12, allocated: 16, files: 2, directories: 1, ..Totals::default() };
    let top = summary_entry("projects".to_owned(), "/root/projects".to_owned(), &item, true);
    assert_eq!(top.size_bytes, 12);
    assert!(top.is_directory);
    let summary = finish_summary(
        "/root".to_owned(),
        &item,
        vec![entry("small", 1), top],
        false,
        7,
    );
    assert_eq!(summary.total_size_bytes, 12);
    assert_eq!(summary.file_count, 2);
    assert_eq!(summary.entries[0].name, "projects");
    assert_eq!(summary.elapsed_milliseconds, 7);
    assert!(!summary.entries_truncated);
}

#[test]
fn entry_steps_follow_the_walk_of_one_entry() {
    let root = Some("volume-1");
    assert_eq!(entry_step(&EntryEvent::Control(false), root), EntryAction::Cancel);
    assert_eq!(entry_step(&EntryEvent::Control(true), root), EntryAction::ReadType);
    assert_eq!(
        entry_step(&EntryEvent::ListingFailed, root),
        EntryAction::Skip("directory_entry_unreadable")
    );
    assert_eq!(
        entry_step(&EntryEvent::TypeUnavailable, root),
        EntryAction::Skip("metadata_unavailable")
    );
    assert_eq!(
        entry_step(&EntryEvent::TypeRead(EntryKind::Symlink), root),
        EntryAction::Skip("link_not_followed")
    );
    assert_eq!(entry_step(&EntryEvent::TypeRead(EntryKind::File), root), EntryAction::OpenFile);
    assert_eq!(
        entry_step(&EntryEvent::TypeRead(EntryKind::Directory), root),
        EntryAction::OpenDirectory
    );
    assert_eq!(
        entry_step(&EntryEvent::TypeRead(EntryKind::Other), root),
        EntryAction::Skip("unsupported_entry_type")
    );
    assert_eq!(
        entry_step(&EntryEvent::FileUnavailable, root),
        EntryAction::Skip("file_snapshot_unavailable")
    );
    assert_eq!(entry_step(&EntryEvent::FileMeasured, root), EntryAction::CountFile);
    assert_eq!(
        entry_step(&EntryEvent::DirectoryOpenFailed, root),
        EntryAction::Skip("directory_replaced_or_unreadable")
    );
    assert_eq!(
        entry_step(&EntryEvent::DirectoryOpened(Some("volume-1".to_owned())), root),
        EntryAction::ListDirectory
    );
    assert_eq!(
        entry_step(&EntryEvent::DirectoryOpened(Some("volume-2".to_owned())), root),
        EntryAction::Skip("different_volume")
    );
    assert_eq!(
        entry_step(&EntryEvent::DirectoryOpened(None), root),
        EntryAction::Skip("volume_identity_unavailable")
    );
    assert_eq!(entry_step(&EntryEvent::DirectoryOpened(None), None), EntryAction::ListDirectory);
    assert_eq!(
        entry_step(&EntryEvent::DirectoryListFailed, root),
        EntryAction::Skip("directory_unreadable")
    );
    assert_eq!(entry_step(&EntryEvent::DirectoryListed, root), EntryAction::EnterDirectory);
}
