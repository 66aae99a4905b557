use disk_visualizer::fsevents_history::{check_history_request, poll_history, HistoryPoll};
use disk_visualizer::fsevents_callback::CollectedFseventsBatch;
use disk_visualizer::fsevents_callback::FseventsCallbackFailure;
use disk_visualizer::fsevents_history::{callback_failure_message, device_relative_root, read_history};
use std::time::Duration;

#[test]
fn creates_device_relative_paths_without_parent_escape() {
    assert_eq!(
        device_relative_root("/Volumes/Data/work", "/Volumes/Data").unwrap(),
        "work"
    );
    assert_eq!(device_relative_root("/", "/").unwrap(), "");
    assert!(device_relative_root("/other", "/Volumes/Data").is_err());
}

#[test]
fn fsevents_history_reports_unsupported_platform() {
    assert!(read_history("/", 1, Some(4), Duration::from_secs(1)).is_err());
}

#[test]
fn device_relative_root_keeps_nested_components() {
    assert_eq!(
        device_relative_root("/Volumes/Data/work/project", "/Volumes/Data").unwrap(),
        "work/project"
    );
    assert_eq!(
        device_relative_root("/other", "/Volumes/Data"),
        Err("FSEventsの走査root /other をmount point /Volumes/Data から相対化できません".to_owned())
    );
}

#[test]
fn names_callback_failures() {
    assert_eq!(
        callback_failure_message(FseventsCallbackFailure::CapacityExceeded),
        "FSEvents callback batchを安全に収集できません: CapacityExceeded"
    );
    assert_eq!(
        callback_failure_message(FseventsCallbackFailure::InvalidPath),
        "FSEvents callback batchを安全に収集できません: InvalidPath"
    );
}

#[test]
fn history_reads_need_a_real_event_and_a_positive_wait() {
    assert_eq!(check_history_request(10, false), Ok(()));
    assert_eq!(
        check_history_request(0, false),
        Err("FSEvents checkpoint event IDが不正です".to_owned())
    );
    assert_eq!(
        check_history_request(u64::MAX, true),
        Err("FSEvents checkpoint event IDが不正です".to_owned())
    );
    assert_eq!(
        check_history_request(10, true),
        Err("FSEvents履歴待機時間は0より大きい必要があります".to_owned())
    );
}

#[test]
fn polling_ends_on_marker_failure_or_deadline() {
    let pending = CollectedFseventsBatch { changes: vec![], history_done: false };
    assert!(matches!(poll_history(Ok(pending.clone()), false), HistoryPoll::Wait));
    match poll_history(Ok(pending), true) {
        HistoryPoll::Failed(message) => {
            assert_eq!(message, "FSEvents履歴がHistoryDoneまでに完了しませんでした")
        }
        _ => panic!("expected a timeout"),
    }
    let done = CollectedFseventsBatch { changes: vec![], history_done: true };
    assert!(matches!(poll_history(Ok(done), true), HistoryPoll::Finished(changes) if changes.is_empty()));
    match poll_history(Err(FseventsCallbackFailure::MalformedBatch), false) {
        HistoryPoll::Failed(message) => assert_eq!(
            message,
            "FSEvents callback batchを安全に収集できません: MalformedBatch"
        ),
        _ => panic!("expected a failure"),
    }
}
