use disk_visualizer::index_checkpoint::{
    checkpoint_migration, validate_checkpoint, IndexCheckpoint, IndexCheckpointRepository,
};

fn checkpoint(token: &str) -> IndexCheckpoint {
    IndexCheckpoint {
        root_path: "/Volumes/Data".to_owned(),
        platform: "macos".to_owned(),
        volume_identity: "volume-1".to_owned(),
        root_identity: "root-1".to_owned(),
        history_source: "fsevents".to_owned(),
        history_token: token.to_owned(),
        updated_at: 1234,
    }
}

#[test]
fn rejects_checkpoints_without_identity_or_token() {
    assert_eq!(validate_checkpoint(&checkpoint("100")), Ok(()));
    assert_eq!(
        validate_checkpoint(&checkpoint("")),
        Err("差分更新checkpointのidentityまたはtokenが不足しています".to_owned())
    );
    let mut no_volume = checkpoint("100");
    no_volume.volume_identity.clear();
    assert!(validate_checkpoint(&no_volume).is_err());
}

#[test]
fn current_checkpoint_carries_the_given_values() {
    let repository = IndexCheckpointRepository::new("checkpoints.sqlite3".into());
    let saved = repository
        .save_current(
            "/Volumes/Data".to_owned(),
            "macos".to_owned(),
            "volume-1".to_owned(),
            "root-1".to_owned(),
            "fsevents".to_owned(),
            "fsevents:v1:200".to_owned(),
            99,
        )
        .unwrap();
    assert_eq!(saved.history_token, "fsevents:v1:200");
    assert_eq!(saved.updated_at, 99);
    assert!(repository
        .save_current(
            "".to_owned(),
            "macos".to_owned(),
            "volume-1".to_owned(),
            "root-1".to_owned(),
            "fsevents".to_owned(),
            "fsevents:v1:200".to_owned(),
            99,
        )
        .is_err());
}

#[test]
fn checkpoint_store_migrates_only_from_version_six() {
    assert_eq!(checkpoint_migration(6), Ok(true));
    assert_eq!(checkpoint_migration(7), Ok(false));
    assert_eq!(
        checkpoint_migration(5),
        Err("checkpoint移行元として未対応のDBバージョンです: 5".to_owned())
    );
}
