use disk_visualizer::change_history::{evaluate_continuity, AvailableHistory, HistoryContinuity, HistoryToken};

#[test]
fn round_trips_versioned_tokens() {
    let fsevents = HistoryToken::Fsevents { event_id: 42 };
    assert_eq!(HistoryToken::parse(&fsevents.encode()).unwrap(), fsevents);
    let usn = HistoryToken::Usn {
        journal_id: 7,
        next_usn: 900,
    };
    assert_eq!(HistoryToken::parse(&usn.encode()).unwrap(), usn);
}

#[test]
fn rejects_unknown_or_incomplete_tokens() {
    assert!(HistoryToken::parse("fsevents:v2:42").is_err());
    assert!(HistoryToken::parse("usn:v1:7").is_err());
    assert!(HistoryToken::parse("usn:v1:0:-1").is_err());
}

#[test]
fn accepts_continuous_fsevents_history() {
    assert_eq!(
        evaluate_continuity(
            HistoryToken::Fsevents { event_id: 20 },
            AvailableHistory::Fsevents {
                earliest_event_id: 10,
                latest_event_id: 30,
            },
        ),
        HistoryContinuity::Continuous
    );
}

#[test]
fn detects_fsevents_history_gap() {
    assert_eq!(
        evaluate_continuity(
            HistoryToken::Fsevents { event_id: 9 },
            AvailableHistory::Fsevents {
                earliest_event_id: 10,
                latest_event_id: 30,
            },
        ),
        HistoryContinuity::HistoryGap
    );
}

#[test]
fn detects_usn_journal_recreation_and_trimmed_history() {
    let checkpoint = HistoryToken::Usn {
        journal_id: 7,
        next_usn: 100,
    };
    assert_eq!(
        evaluate_continuity(
            checkpoint,
            AvailableHistory::Usn {
                journal_id: 8,
                lowest_valid_usn: 50,
                next_usn: 200,
            },
        ),
        HistoryContinuity::JournalChanged
    );
    assert_eq!(
        evaluate_continuity(
            checkpoint,
            AvailableHistory::Usn {
                journal_id: 7,
                lowest_valid_usn: 101,
                next_usn: 200,
            },
        ),
        HistoryContinuity::HistoryGap
    );
}

#[test]
fn rejects_source_mismatch_and_invalid_ranges() {
    assert_eq!(
        evaluate_continuity(
            HistoryToken::Fsevents { event_id: 20 },
            AvailableHistory::Usn {
                journal_id: 7,
                lowest_valid_usn: 10,
                next_usn: 30,
            },
        ),
        HistoryContinuity::SourceMismatch
    );
    assert_eq!(
        evaluate_continuity(
            HistoryToken::Usn {
                journal_id: 7,
                next_usn: 40,
            },
            AvailableHistory::Usn {
                journal_id: 7,
                lowest_valid_usn: 30,
                next_usn: 20,
            },
        ),
        HistoryContinuity::InvalidRange
    );
}

#[test]
fn encodes_tokens_in_the_versioned_text_form() {
    assert_eq!(HistoryToken::Fsevents { event_id: 42 }.encode(), "fsevents:v1:42");
    assert_eq!(
        HistoryToken::Usn { journal_id: 7, next_usn: -3 }.encode(),
        "usn:v1:7:-3"
    );
    assert_eq!(
        HistoryToken::Fsevents { event_id: u64::MAX }.encode(),
        "fsevents:v1:18446744073709551615"
    );
}

#[test]
fn parse_reports_each_fault() {
    assert_eq!(
        HistoryToken::parse("fsevents:v1:x"),
        Err("FSEvents tokenのevent IDが不正です".to_owned())
    );
    assert_eq!(
        HistoryToken::parse("fsevents:v1:0"),
        Err("FSEvents tokenのevent IDは0にできません".to_owned())
    );
    assert_eq!(
        HistoryToken::parse("usn:v1:-1:5"),
        Err("USN tokenのjournal IDが不正です".to_owned())
    );
    assert_eq!(
        HistoryToken::parse("usn:v1:7:five"),
        Err("USN tokenのnext USNが不正です".to_owned())
    );
    assert_eq!(
        HistoryToken::parse("usn:v1:7:-1"),
        Err("USN tokenの値が保存可能な範囲外です".to_owned())
    );
    assert_eq!(
        HistoryToken::parse("fsevents:v1:1:2"),
        Err("未対応または破損した変更履歴tokenです".to_owned())
    );
    assert_eq!(
        HistoryToken::parse(""),
        Err("未対応または破損した変更履歴tokenです".to_owned())
    );
}

#[test]
fn continuity_accepts_checkpoint_at_either_end_of_the_range() {
    let available = AvailableHistory::Fsevents {
        earliest_event_id: 10,
        latest_event_id: 30,
    };
    assert_eq!(
        evaluate_continuity(HistoryToken::Fsevents { event_id: 10 }, available),
        HistoryContinuity::Continuous
    );
    assert_eq!(
        evaluate_continuity(HistoryToken::Fsevents { event_id: 30 }, available),
        HistoryContinuity::Continuous
    );
    assert_eq!(
        evaluate_continuity(HistoryToken::Fsevents { event_id: 31 }, available),
        HistoryContinuity::InvalidRange
    );
    assert_eq!(
        evaluate_continuity(
            HistoryToken::Fsevents { event_id: 5 },
            AvailableHistory::Fsevents { earliest_event_id: 0, latest_event_id: 30 }
        ),
        HistoryContinuity::InvalidRange
    );
}
