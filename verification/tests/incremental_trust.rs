use disk_visualizer::incremental_trust::{baseline_event_id, identity_assessment};
use disk_visualizer::change_history::HistoryToken;
use disk_visualizer::fsevents_callback::CollectedFseventsChange;
use disk_visualizer::fsevents_history::FseventsHistoryRead;
use disk_visualizer::incremental_trust::{assess_macos_index_trust, checkpoint_event_id, evaluate_history};
use disk_visualizer::index_checkpoint::{IndexCheckpoint, IndexCheckpointRepository};
use disk_visualizer::index_trust::{IndexTrustState, ScanRecommendation};
use disk_visualizer::macos_fsevents::{FseventsBatchDecision, FseventsEvent, FseventsFallbackReason};
use std::time::Duration;

fn checkpoint() -> IndexCheckpoint {
    IndexCheckpoint {
        root_path: "/Volumes/Data".to_owned(),
        platform: "macos".to_owned(),
        volume_identity: "volume-1".to_owned(),
        root_identity: "root-1".to_owned(),
        history_source: "fsevents".to_owned(),
        history_token: HistoryToken::Fsevents { event_id: 10 }.encode(),
        updated_at: 1,
    }
}

fn history(decision: FseventsBatchDecision) -> Result<FseventsHistoryRead, String> {
    Ok(FseventsHistoryRead {
        changes: vec![CollectedFseventsChange {
            relative_path: "changed.txt".into(),
            event: FseventsEvent {
                event_id: 11,
                flags: 0,
            },
        }],
        decision,
    })
}

#[test]
fn accepts_matching_continuous_history_and_advances_token() {
    let assessment = evaluate_history(
        &checkpoint(),
        "volume-1",
        "root-1",
        history(FseventsBatchDecision::Incremental { next_event_id: 11 }),
    );
    assert_eq!(assessment.decision.state, IndexTrustState::Trusted);
    assert_eq!(
        assessment.next_history_token.as_deref(),
        Some("fsevents:v1:11")
    );
    assert_eq!(assessment.changes.len(), 1);
    assert!(!assessment.rescan_subtrees);
}

#[test]
fn preserves_subtree_rescan_requirement() {
    let assessment = evaluate_history(
        &checkpoint(),
        "volume-1",
        "root-1",
        history(FseventsBatchDecision::RescanSubtrees { next_event_id: 11 }),
    );
    assert_eq!(assessment.decision.state, IndexTrustState::Trusted);
    assert!(assessment.rescan_subtrees);
}

#[test]
fn rejects_identity_changes_before_accepting_history() {
    let volume = evaluate_history(
        &checkpoint(),
        "volume-2",
        "root-1",
        history(FseventsBatchDecision::Incremental { next_event_id: 11 }),
    );
    assert_eq!(volume.decision.state, IndexTrustState::VolumeChanged);
    assert!(volume.changes.is_empty());

    let root = evaluate_history(
        &checkpoint(),
        "volume-1",
        "root-2",
        history(FseventsBatchDecision::Incremental { next_event_id: 11 }),
    );
    assert_eq!(root.decision.state, IndexTrustState::RootChanged);
}

#[test]
fn maps_history_failures_to_full_scan_states() {
    let unavailable = evaluate_history(
        &checkpoint(),
        "volume-1",
        "root-1",
        Err("timeout".to_owned()),
    );
    assert_eq!(
        unavailable.decision.state,
        IndexTrustState::HistoryUnavailable
    );

    let dropped = evaluate_history(
        &checkpoint(),
        "volume-1",
        "root-1",
        history(FseventsBatchDecision::FullScan {
            reason: FseventsFallbackReason::KernelDropped,
        }),
    );
    assert_eq!(
        dropped.decision.state,
        IndexTrustState::HistoryDiscontinuous
    );
    assert_eq!(dropped.decision.recommendation, ScanRecommendation::Full);
}

#[test]
fn validates_checkpoint_platform_source_and_token() {
    let mut invalid = checkpoint();
    invalid.platform = "windows".to_owned();
    assert_eq!(
        checkpoint_event_id(&invalid).unwrap_err().state,
        IndexTrustState::HistoryDiscontinuous
    );
    invalid = checkpoint();
    invalid.history_token = "broken".to_owned();
    assert_eq!(
        checkpoint_event_id(&invalid).unwrap_err().state,
        IndexTrustState::HistoryDiscontinuous
    );
}

#[test]
fn reports_unsupported_platform_without_reading_history() {
    let repository = IndexCheckpointRepository::new("unused.sqlite3".into());
    let assessment = assess_macos_index_trust(
        "/",
        &repository,
        Some(4),
        Duration::from_secs(1),
    )
    .unwrap();
    assert_eq!(assessment.decision.state, IndexTrustState::Unsupported);
}

#[test]
fn root_change_reported_by_history_needs_full_scan() {
    let assessment = evaluate_history(
        &checkpoint(),
        "volume-1",
        "root-1",
        history(FseventsBatchDecision::FullScan {
            reason: FseventsFallbackReason::RootChanged,
        }),
    );
    assert_eq!(assessment.decision.state, IndexTrustState::RootChanged);
    assert!(assessment.changes.is_empty());
    assert_eq!(assessment.next_history_token, None);
}

#[test]
fn reads_event_id_of_a_valid_checkpoint() {
    assert_eq!(checkpoint_event_id(&checkpoint()), Ok(10));
    let mut usn = checkpoint();
    usn.history_token = HistoryToken::Usn { journal_id: 7, next_usn: 1 }.encode();
    assert_eq!(
        checkpoint_event_id(&usn).unwrap_err().recommendation,
        ScanRecommendation::Full
    );
    let mut source = checkpoint();
    source.history_source = "usn".to_owned();
    assert!(checkpoint_event_id(&source).is_err());
}

#[test]
fn decides_before_reading_history() {
    let missing = baseline_event_id(None).unwrap_err();
    assert_eq!(missing.decision.state, IndexTrustState::InitialScanRequired);
    assert_eq!(baseline_event_id(Some(&checkpoint())), Ok(10));
    let mut broken = checkpoint();
    broken.history_token = "fsevents:v1:0".to_owned();
    assert_eq!(
        baseline_event_id(Some(&broken)).unwrap_err().decision.state,
        IndexTrustState::HistoryDiscontinuous
    );
    assert_eq!(identity_assessment(&checkpoint(), "volume-1", "root-1"), None);
    assert_eq!(
        identity_assessment(&checkpoint(), "volume-2", "root-2").unwrap().decision.state,
        IndexTrustState::VolumeChanged
    );
    assert_eq!(
        identity_assessment(&checkpoint(), "volume-1", "root-2").unwrap().decision.state,
        IndexTrustState::RootChanged
    );
}
