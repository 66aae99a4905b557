use disk_visualizer::incremental_rescan::IncrementalRescanTarget;
use disk_visualizer::incremental_storage::{
    incremental_entry_type, observation, target_covers, validate_incremental_request,
    IncrementalEntry,
};
use disk_visualizer::index_checkpoint::IndexCheckpoint;
use disk_visualizer::paths::PathStyle;

fn target(path: &str, recursive: bool) -> IncrementalRescanTarget {
    IncrementalRescanTarget {
        relative_path: path.into(),
        recursive,
    }
}

fn entry(path: &str, size: u64) -> IncrementalEntry {
    IncrementalEntry {
        path: path.into(),
        file_count: 1,
        directory_count: 0,
        skipped_count: 0,
        skip_reason: None,
        counted_size_bytes: size,
        logical_size_bytes: size,
        allocated_size_bytes: Some(size),
        file_identity: Some(format!("file-{size}")),
        volume_identity: Some("volume-1".to_owned()),
        modified_at: Some(2),
    }
}

fn checkpoint(token: &str) -> IndexCheckpoint {
    IndexCheckpoint {
        root_path: "/tmp/sample".to_owned(),
        platform: "macos".to_owned(),
        volume_identity: "volume-1".to_owned(),
        root_identity: "root-1".to_owned(),
        history_source: "fsevents".to_owned(),
        history_token: token.to_owned(),
        updated_at: 2,
    }
}

#[test]
fn accepts_replacements_inside_targets() {
    let targets = validate_incremental_request(
        "/tmp/sample",
        &[target("./old", false), target("dir/", true)],
        &[entry("/tmp/sample/old", 5), entry("/tmp/sample/dir/nested", 3)],
        &checkpoint("fsevents:v1:20"),
        PathStyle::Unix,
    )
    .unwrap();
    assert_eq!(targets, vec![target("old", false), target("dir", true)]);
}

#[test]
fn rejects_replacement_outside_target() {
    assert_eq!(
        validate_incremental_request(
            "/tmp/sample",
            &[target("old", false)],
            &[entry("/tmp/sample/other", 5)],
            &checkpoint("fsevents:v1:20"),
            PathStyle::Unix,
        ),
        Err("部分再走査結果が指定target外を指しています".to_owned())
    );
    assert_eq!(
        validate_incremental_request(
            "/tmp/sample",
            &[target("old", false)],
            &[entry("/tmp/sample/old/child", 5)],
            &checkpoint("fsevents:v1:20"),
            PathStyle::Unix,
        ),
        Err("部分再走査結果が指定target外を指しています".to_owned())
    );
}

#[test]
fn rejects_each_malformed_request() {
    let ok = checkpoint("fsevents:v1:20");
    assert_eq!(
        validate_incremental_request("tmp/sample", &[], &[], &ok, PathStyle::Unix),
        Err("部分更新対象には絶対pathが必要です".to_owned())
    );
    assert_eq!(
        validate_incremental_request("/tmp/other", &[], &[], &ok, PathStyle::Unix),
        Err("部分更新対象とcheckpointのrootが一致しません".to_owned())
    );
    assert_eq!(
        validate_incremental_request("/tmp/sample", &[target("../x", true)], &[], &ok, PathStyle::Unix),
        Err("部分再走査targetが不正です".to_owned())
    );
    assert_eq!(
        validate_incremental_request("/tmp/sample", &[target(".", true)], &[entry("/elsewhere/a", 1)], &ok, PathStyle::Unix),
        Err("部分再走査結果が走査root外を指しています".to_owned())
    );
    assert_eq!(
        validate_incremental_request("/tmp/sample", &[target(".", true)], &[entry("/tmp/sample", 1)], &ok, PathStyle::Unix),
        Err("部分再走査結果の相対pathが不正です".to_owned())
    );
    assert_eq!(
        validate_incremental_request(
            "/tmp/sample",
            &[target(".", true)],
            &[entry("/tmp/sample/a", 1), entry("/tmp/sample/./a/", 2)],
            &ok,
            PathStyle::Unix,
        ),
        Err("部分再走査結果に重複pathがあります".to_owned())
    );
}

#[test]
fn root_target_covers_everything_only_when_recursive() {
    assert!(target_covers(&target(".", true), "any/thing", PathStyle::Unix));
    assert!(!target_covers(&target(".", false), "any", PathStyle::Unix));
    assert!(target_covers(&target("dir", true), "dir/file", PathStyle::Unix));
    assert!(target_covers(&target("dir", false), "dir", PathStyle::Unix));
    assert!(!target_covers(&target("dir", false), "dir/file", PathStyle::Unix));
    assert!(!target_covers(&target("dir", true), "directory", PathStyle::Unix));
}

#[test]
fn observes_only_single_unskipped_files() {
    let seen = observation(&entry("/tmp/sample/a", 5)).unwrap();
    assert_eq!(seen.logical_size, Some(5));
    assert_eq!(seen.file_identity, Some("volume-1:file-5".to_owned()));
    let mut no_volume = entry("/tmp/sample/a", 5);
    no_volume.volume_identity = None;
    assert_eq!(observation(&no_volume).unwrap().file_identity, Some("file-5".to_owned()));
    let mut directory = entry("/tmp/sample/dir", 0);
    directory.file_count = 0;
    directory.directory_count = 1;
    assert!(observation(&directory).is_none());
    assert_eq!(incremental_entry_type(&directory), "directory");
    assert_eq!(incremental_entry_type(&entry("/tmp/sample/a", 1)), "file");
}
