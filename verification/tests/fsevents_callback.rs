use disk_visualizer::fsevents_callback::{
    validated_relative_path, CollectedFseventsBatch, CollectedFseventsChange,
    FseventsCallbackCollector, FseventsCallbackFailure, FLAG_HISTORY_DONE,
};
use disk_visualizer::macos_fsevents::FseventsEvent;

fn event(event_id: u64, flags: u32) -> FseventsEvent {
    FseventsEvent { event_id, flags }
}

#[test]
fn collects_relative_changes_and_history_marker() {
    let mut collector = FseventsCallbackCollector::new(Some(4)).unwrap();
    let paths: [&[u8]; 2] = [b"Users/example/file.txt", b"."];
    collector
        .ingest(&paths, &[event(11, 0), event(12, FLAG_HISTORY_DONE)])
        .unwrap();
    assert_eq!(
        collector.snapshot().unwrap(),
        CollectedFseventsBatch {
            changes: vec![CollectedFseventsChange {
                relative_path: "Users/example/file.txt".to_owned(),
                event: event(11, 0),
            }],
            history_done: true,
        }
    );
}

#[test]
fn rejects_malformed_and_ambiguous_paths() {
    let mut malformed = FseventsCallbackCollector::new(Some(4)).unwrap();
    let one: [&[u8]; 1] = [b"one"];
    assert_eq!(
        malformed.ingest(&one, &[]),
        Err(FseventsCallbackFailure::MalformedBatch)
    );
    for path in [
        b"/absolute".as_slice(),
        b"../escape".as_slice(),
        b"with\0nul".as_slice(),
        &[0xff],
    ] {
        let mut collector = FseventsCallbackCollector::new(Some(4)).unwrap();
        assert_eq!(
            collector.ingest(&[path], &[event(11, 0)]),
            Err(FseventsCallbackFailure::InvalidPath)
        );
        assert_eq!(
            collector.snapshot(),
            Err(FseventsCallbackFailure::InvalidPath)
        );
    }
}

#[test]
fn invalidates_and_clears_on_capacity_overflow() {
    let mut collector = FseventsCallbackCollector::new(Some(1)).unwrap();
    let one: [&[u8]; 1] = [b"one"];
    let two: [&[u8]; 1] = [b"two"];
    collector.ingest(&one, &[event(11, 0)]).unwrap();
    assert_eq!(
        collector.ingest(&two, &[event(12, 0)]),
        Err(FseventsCallbackFailure::CapacityExceeded)
    );
    assert_eq!(
        collector.snapshot(),
        Err(FseventsCallbackFailure::CapacityExceeded)
    );
}

#[test]
fn rejects_zero_capacity() {
    assert!(FseventsCallbackCollector::new(Some(0)).is_err());
}

#[test]
fn failure_sticks_for_later_batches() {
    let mut collector = FseventsCallbackCollector::new(Some(4)).unwrap();
    let bad: [&[u8]; 1] = [b"/absolute"];
    let good: [&[u8]; 1] = [b"fine.txt"];
    assert_eq!(
        collector.ingest(&bad, &[event(11, 0)]),
        Err(FseventsCallbackFailure::InvalidPath)
    );
    assert_eq!(
        collector.ingest(&good, &[event(12, 0)]),
        Err(FseventsCallbackFailure::InvalidPath)
    );
    assert_eq!(collector.snapshot(), Err(FseventsCallbackFailure::InvalidPath));
}

#[test]
fn malformed_batch_clears_collected_changes() {
    let mut collector = FseventsCallbackCollector::new(Some(4)).unwrap();
    let one: [&[u8]; 1] = [b"one"];
    collector.ingest(&one, &[event(11, 0)]).unwrap();
    assert_eq!(
        collector.ingest(&one, &[event(12, 0), event(13, 0)]),
        Err(FseventsCallbackFailure::MalformedBatch)
    );
    assert_eq!(collector.snapshot(), Err(FseventsCallbackFailure::MalformedBatch));
}

#[test]
fn accepts_the_volume_root_as_a_change() {
    assert_eq!(validated_relative_path(b"."), Ok(".".to_owned()));
    assert_eq!(validated_relative_path(b"a/b"), Ok("a/b".to_owned()));
    assert_eq!(validated_relative_path(b""), Err(FseventsCallbackFailure::InvalidPath));
    assert_eq!(validated_relative_path(b"a/./b"), Ok("a/./b".to_owned()));
    assert_eq!(validated_relative_path(b"./a"), Err(FseventsCallbackFailure::InvalidPath));
    assert_eq!(validated_relative_path(b"a/../b"), Err(FseventsCallbackFailure::InvalidPath));
}

#[test]
fn default_capacity_holds_many_changes() {
    let mut collector = FseventsCallbackCollector::new(None).unwrap();
    let path: [&[u8]; 1] = [b"file"];
    for index in 0..4096u64 {
        collector.ingest(&path, &[event(index + 1, 0)]).unwrap();
    }
    assert_eq!(
        collector.ingest(&path, &[event(5000, 0)]),
        Err(FseventsCallbackFailure::CapacityExceeded)
    );
}

#[test]
fn batches_keep_their_order_until_one_is_refused() {
    let mut collector = FseventsCallbackCollector::new(Some(3)).unwrap();
    let first: [&[u8]; 2] = [b"a", b"b"];
    let second: [&[u8]; 2] = [b"c", b"marker"];
    collector.ingest(&first, &[event(1, 0), event(2, 0)]).unwrap();
    collector
        .ingest(&second, &[event(3, 0), event(4, FLAG_HISTORY_DONE)])
        .unwrap();
    let change = |path: &str, id: u64| CollectedFseventsChange {
        relative_path: path.to_owned(),
        event: event(id, 0),
    };
    assert_eq!(
        collector.snapshot().unwrap(),
        CollectedFseventsBatch {
            changes: vec![change("a", 1), change("b", 2), change("c", 3)],
            history_done: true,
        }
    );
    let third: [&[u8]; 1] = [b"d"];
    assert_eq!(
        collector.ingest(&third, &[event(5, 0)]),
        Err(FseventsCallbackFailure::CapacityExceeded)
    );
    let fourth: [&[u8]; 1] = [b"e"];
    assert_eq!(
        collector.ingest(&fourth, &[event(6, 0)]),
        Err(FseventsCallbackFailure::CapacityExceeded)
    );
    assert_eq!(collector.snapshot(), Err(FseventsCallbackFailure::CapacityExceeded));
}
