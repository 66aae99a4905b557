use disk_visualizer::index_trust::{evaluate, IndexTrustDecision, IndexTrustEvidence, IndexTrustState, ScanRecommendation};

fn trusted_evidence() -> IndexTrustEvidence {
    IndexTrustEvidence {
        platform_history_supported: true,
        has_baseline: true,
        history_available: true,
        history_continuous: true,
        volume_matches: true,
        root_matches: true,
    }
}

#[test]
fn allows_incremental_only_for_continuous_matching_history() {
    assert_eq!(
        evaluate(trusted_evidence()),
        IndexTrustDecision {
            state: IndexTrustState::Trusted,
            recommendation: ScanRecommendation::Incremental,
        }
    );
}

#[test]
fn requires_full_scan_without_baseline() {
    let mut evidence = trusted_evidence();
    evidence.has_baseline = false;
    assert_eq!(evaluate(evidence).state, IndexTrustState::InitialScanRequired);
    assert_eq!(evaluate(evidence).recommendation, ScanRecommendation::Full);
}

#[test]
fn requires_full_scan_when_history_is_missing_or_discontinuous() {
    let mut missing = trusted_evidence();
    missing.history_available = false;
    assert_eq!(evaluate(missing).state, IndexTrustState::HistoryUnavailable);

    let mut discontinuous = trusted_evidence();
    discontinuous.history_continuous = false;
    assert_eq!(
        evaluate(discontinuous).state,
        IndexTrustState::HistoryDiscontinuous
    );
    assert_eq!(evaluate(discontinuous).recommendation, ScanRecommendation::Full);
}

#[test]
fn requires_full_scan_when_target_identity_changes() {
    let mut volume_changed = trusted_evidence();
    volume_changed.volume_matches = false;
    assert_eq!(evaluate(volume_changed).state, IndexTrustState::VolumeChanged);

    let mut root_changed = trusted_evidence();
    root_changed.root_matches = false;
    assert_eq!(evaluate(root_changed).state, IndexTrustState::RootChanged);
}

#[test]
fn unsupported_history_never_enables_incremental_scan() {
    let mut evidence = trusted_evidence();
    evidence.platform_history_supported = false;
    assert_eq!(evaluate(evidence).state, IndexTrustState::Unsupported);
    assert_eq!(evaluate(evidence).recommendation, ScanRecommendation::Full);
}

#[test]
fn only_complete_evidence_is_trusted() {
    for mask in 0u32..64 {
        let evidence = IndexTrustEvidence {
            platform_history_supported: mask & 1 != 0,
            has_baseline: mask & 2 != 0,
            history_available: mask & 4 != 0,
            history_continuous: mask & 8 != 0,
            volume_matches: mask & 16 != 0,
            root_matches: mask & 32 != 0,
        };
        let decision = evaluate(evidence);
        assert_eq!(decision.state == IndexTrustState::Trusted, mask == 63);
        assert_eq!(
            decision.recommendation == ScanRecommendation::Incremental,
            mask == 63
        );
    }
}

#[test]
fn identity_checks_come_before_history_checks() {
    let mut evidence = trusted_evidence();
    evidence.volume_matches = false;
    evidence.history_available = false;
    assert_eq!(evaluate(evidence).state, IndexTrustState::VolumeChanged);
    evidence.volume_matches = true;
    evidence.root_matches = false;
    assert_eq!(evaluate(evidence).state, IndexTrustState::RootChanged);
}
