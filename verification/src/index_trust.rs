//! Whether a saved scan index may be updated incrementally, from the evidence
//! gathered about the platform, the baseline scan, the change history and the
//! identity of the scanned volume and root.
use vstd::prelude::*;

verus! {

/// The trust state of a saved index.
#[derive(Clone, Copy, Debug, PartialEq, Eq, Structural)]
pub enum IndexTrustState {
    InitialScanRequired,
    Trusted,
    HistoryUnavailable,
    HistoryDiscontinuous,
    VolumeChanged,
    RootChanged,
    Unsupported,
}

/// The kind of scan recommended for a root.
#[derive(Clone, Copy, Debug, PartialEq, Eq, Structural)]
pub enum ScanRecommendation {
    Incremental,
    Full,
}

/// The facts an incremental update depends on.
#[derive(Clone, Copy, Debug, PartialEq, Eq, Structural)]
pub struct IndexTrustEvidence {
    pub platform_history_supported: bool,
    pub has_baseline: bool,
    pub history_available: bool,
    pub history_continuous: bool,
    pub volume_matches: bool,
    pub root_matches: bool,
}

/// A trust state with the scan it calls for.
#[derive(Clone, Copy, Debug, PartialEq, Eq, Structural)]
pub struct IndexTrustDecision {
    pub state: IndexTrustState,
    pub recommendation: ScanRecommendation,
}

/// The state for the evidence: the first missing fact, in the order platform
/// support, baseline, volume identity, root identity, history availability,
/// history continuity; `Trusted` when none is missing.
pub open spec fn trust_state(e: IndexTrustEvidence) -> IndexTrustState {
    if !e.platform_history_supported {
        IndexTrustState::Unsupported
    } else if !e.has_baseline {
        IndexTrustState::InitialScanRequired
    } else if !e.volume_matches {
        IndexTrustState::VolumeChanged
    } else if !e.root_matches {
        IndexTrustState::RootChanged
    } else if !e.history_available {
        IndexTrustState::HistoryUnavailable
    } else if !e.history_continuous {
        IndexTrustState::HistoryDiscontinuous
    } else {
        IndexTrustState::Trusted
    }
}

/// The scan a state calls for: incremental only when trusted.
pub open spec fn recommendation_for(state: IndexTrustState) -> ScanRecommendation {
    if state == IndexTrustState::Trusted {
        ScanRecommendation::Incremental
    } else {
        ScanRecommendation::Full
    }
}

/// Every fact that an incremental update needs holds.
pub open spec fn all_evidence(e: IndexTrustEvidence) -> bool {
    e.platform_history_supported && e.has_baseline && e.history_available && e.history_continuous
        && e.volume_matches && e.root_matches
}

/// Decides the trust state and recommendation for the evidence.
pub fn evaluate(evidence: IndexTrustEvidence) -> (d: IndexTrustDecision)
    ensures
        d.state == trust_state(evidence),
        d.recommendation == recommendation_for(d.state),
        d.recommendation == ScanRecommendation::Incremental <==> all_evidence(evidence),
{
    let state = if !evidence.platform_history_supported {
        IndexTrustState::Unsupported
    } else if !evidence.has_baseline {
        IndexTrustState::InitialScanRequired
    } else if !evidence.volume_matches {
        IndexTrustState::VolumeChanged
    } else if !evidence.root_matches {
        IndexTrustState::RootChanged
    } else if !evidence.history_available {
        IndexTrustState::HistoryUnavailable
    } else if !evidence.history_continuous {
        IndexTrustState::HistoryDiscontinuous
    } else {
        IndexTrustState::Trusted
    };
    IndexTrustDecision {
        state,
        recommendation: if state == IndexTrustState::Trusted {
            ScanRecommendation::Incremental
        } else {
            ScanRecommendation::Full
        },
    }
}

} // verus!
