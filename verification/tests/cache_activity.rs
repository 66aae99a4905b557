use disk_visualizer::cache_activity::{evaluate_runtime_state, CacheObservation, CacheRuntimeState};

fn observation() -> CacheObservation {
    CacheObservation {
        logical_size: Some(1024),
        modified_at: Some(1_723_700_000),
        file_identity: Some("volume-7:file-42".to_owned()),
    }
}

#[test]
fn reports_stable_for_equal_observations() {
    let before = observation();
    let after = before.clone();
    assert_eq!(
        evaluate_runtime_state(Some(&before), Some(&after)),
        CacheRuntimeState::Stable
    );
}

#[test]
fn reports_changing_when_size_changes() {
    let before = observation();
    let mut after = before.clone();
    after.logical_size = Some(2048);
    assert_eq!(
        evaluate_runtime_state(Some(&before), Some(&after)),
        CacheRuntimeState::Changing
    );
}

#[test]
fn reports_changing_when_identity_changes() {
    let before = observation();
    let mut after = before.clone();
    after.file_identity = Some("volume-7:file-43".to_owned());
    assert_eq!(
        evaluate_runtime_state(Some(&before), Some(&after)),
        CacheRuntimeState::Changing
    );
}

#[test]
fn reports_unknown_when_an_observation_is_missing() {
    let before = observation();
    assert_eq!(
        evaluate_runtime_state(Some(&before), None),
        CacheRuntimeState::Unknown
    );
}

#[test]
fn reports_unknown_without_usable_metadata() {
    let empty = CacheObservation::default();
    assert_eq!(
        evaluate_runtime_state(Some(&empty), Some(&empty)),
        CacheRuntimeState::Unknown
    );
}

#[test]
fn reports_changing_when_modification_time_changes() {
    let before = observation();
    let mut after = before.clone();
    after.modified_at = Some(1_723_700_001);
    assert_eq!(
        evaluate_runtime_state(Some(&before), Some(&after)),
        CacheRuntimeState::Changing
    );
}

#[test]
fn reports_unknown_when_the_earlier_observation_is_missing() {
    let after = observation();
    assert_eq!(evaluate_runtime_state(None, Some(&after)), CacheRuntimeState::Unknown);
    assert_eq!(evaluate_runtime_state(None, None), CacheRuntimeState::Unknown);
}

#[test]
fn state_labels_round_trip() {
    for state in [
        CacheRuntimeState::Stable,
        CacheRuntimeState::Changing,
        CacheRuntimeState::Unknown,
    ] {
        assert_eq!(CacheRuntimeState::from_str(state.as_str()), Some(state));
    }
    assert_eq!(CacheRuntimeState::Stable.as_str(), "stable");
    assert_eq!(CacheRuntimeState::Changing.as_str(), "changing");
    assert_eq!(CacheRuntimeState::Unknown.as_str(), "unknown");
    assert_eq!(CacheRuntimeState::from_str("Stable"), None);
    assert_eq!(CacheRuntimeState::from_str(""), None);
}
