use disk_visualizer::change_history::HistoryToken;
use disk_visualizer::macos_fsevents::{checkpoint_from_event_id, query_checkpoint};

#[test]
fn macos_fsevents_reports_unsupported_platform() {
    assert!(query_checkpoint("/").is_err());
}

#[test]
fn checkpoint_takes_only_real_event_ids() {
    assert_eq!(
        checkpoint_from_event_id(42),
        Ok(HistoryToken::Fsevents { event_id: 42 })
    );
    assert!(checkpoint_from_event_id(0).is_err());
    assert!(checkpoint_from_event_id(u64::MAX).is_err());
}

#[test]
fn converts_device_event_id_to_checkpoint() {
    let checkpoint = checkpoint_from_event_id(42).unwrap();
    assert_eq!(checkpoint, HistoryToken::Fsevents { event_id: 42 });
}
