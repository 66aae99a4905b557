//! Combines a saved checkpoint, the current identities of the scanned root and
//! the replayed FSEvents history into one trust assessment. Only a trusted
//! assessment carries changes and the token to save next.
use crate::change_history::{HistoryToken, parse_spec};
use crate::fsevents_callback::{changes_view, CollectedFseventsChange};
use crate::fsevents_history::FseventsHistoryRead;
use crate::index_checkpoint::{IndexCheckpoint, IndexCheckpointRepository};
use crate::index_trust::{
    evaluate, recommendation_for, trust_state, IndexTrustDecision, IndexTrustEvidence,
    IndexTrustState, ScanRecommendation,
};
use crate::macos_fsevents::{FseventsBatchDecision, FseventsEvent, FseventsFallbackReason};
use crate::change_history::encode_spec;
use crate::text::{str_eq, decimal};
use std::time::Duration;
use vstd::prelude::*;

verus! {

/// The outcome of assessing a root for an incremental update on macOS.
#[derive(Clone, Debug, PartialEq, Eq)]
pub struct MacosIndexTrustAssessment {
    pub decision: IndexTrustDecision,
    pub changes: Vec<CollectedFseventsChange>,
    pub rescan_subtrees: bool,
    pub next_history_token: Option<String>,
}

/// The decision for a state that calls for a full scan.
pub open spec fn full_decision(state: IndexTrustState) -> IndexTrustDecision {
    IndexTrustDecision { state, recommendation: ScanRecommendation::Full }
}

/// An assessment that recommends a full scan in `state` and carries nothing else.
pub open spec fn is_full_assessment(a: MacosIndexTrustAssessment, state: IndexTrustState) -> bool {
    &&& a.decision == full_decision(state)
    &&& a.changes@.len() == 0
    &&& !a.rescan_subtrees
    &&& a.next_history_token is None
}

/// The decision that history is not continuous for an unusable checkpoint.
pub open spec fn discontinuous_decision() -> IndexTrustDecision {
    IndexTrustDecision {
        state: IndexTrustState::HistoryDiscontinuous,
        recommendation: ScanRecommendation::Full,
    }
}

/// The FSEvents event ID a checkpoint was taken at, when it is a macOS FSEvents
/// checkpoint with a valid token.
pub open spec fn checkpoint_event_id_spec(c: IndexCheckpoint) -> Option<u64> {
    if c.platform@ != "macos"@ || c.history_source@ != "fsevents"@ {
        None
    } else {
        match parse_spec(c.history_token@) {
            Ok(HistoryToken::Fsevents { event_id }) => Some(event_id),
            _ => None,
        }
    }
}

/// The assessment for a checkpoint, the current identities and the history
/// read: identities are compared first, then the history must have been read,
/// and only an incremental or subtree decision is trusted.
pub open spec fn history_assessment_matches(
    a: MacosIndexTrustAssessment,
    checkpoint: IndexCheckpoint,
    volume: Seq<char>,
    root: Seq<char>,
    history: Option<(Seq<(Seq<char>, FseventsEvent)>, FseventsBatchDecision)>,
) -> bool {
    if checkpoint.volume_identity@ != volume {
        is_full_assessment(a, IndexTrustState::VolumeChanged)
    } else if checkpoint.root_identity@ != root {
        is_full_assessment(a, IndexTrustState::RootChanged)
    } else {
        match history {
            None => is_full_assessment(a, IndexTrustState::HistoryUnavailable),
            Some((changes, decision)) => match decision {
                FseventsBatchDecision::Incremental { next_event_id } => {
                    &&& a.decision == IndexTrustDecision {
                        state: IndexTrustState::Trusted,
                        recommendation: ScanRecommendation::Incremental,
                    }
                    &&& changes_view(a.changes@) == changes
                    &&& !a.rescan_subtrees
                    &&& a.next_history_token matches Some(t) && t@ == encode_spec(
                        HistoryToken::Fsevents { event_id: next_event_id },
                    )
                },
                FseventsBatchDecision::RescanSubtrees { next_event_id } => {
                    &&& a.decision == IndexTrustDecision {
                        state: IndexTrustState::Trusted,
                        recommendation: ScanRecommendation::Incremental,
                    }
                    &&& changes_view(a.changes@) == changes
                    &&& a.rescan_subtrees
                    &&& a.next_history_token matches Some(t) && t@ == encode_spec(
                        HistoryToken::Fsevents { event_id: next_event_id },
                    )
                },
                FseventsBatchDecision::FullScan { reason } => if reason
                    == FseventsFallbackReason::RootChanged {
                    is_full_assessment(a, IndexTrustState::RootChanged)
                } else {
                    is_full_assessment(a, IndexTrustState::HistoryDiscontinuous)
                },
            },
        }
    }
}

/// The abstract content of a history read, or `None` when it failed.
pub open spec fn history_view(h: Result<FseventsHistoryRead, String>) -> Option<
    (Seq<(Seq<char>, FseventsEvent)>, FseventsBatchDecision),
> {
    match h {
        Ok(read) => Some((changes_view(read.changes@), read.decision)),
        Err(_) => None,
    }
}

fn full_assessment(state: IndexTrustState) -> (a: MacosIndexTrustAssessment)
    requires
        state != IndexTrustState::Trusted,
    ensures
        is_full_assessment(a, state),
{
    MacosIndexTrustAssessment {
        decision: IndexTrustDecision { state, recommendation: ScanRecommendation::Full },
        changes: Vec::new(),
        rescan_subtrees: false,
        next_history_token: None,
    }
}

fn evidence_decision(
    has_baseline: bool,
    history_available: bool,
    history_continuous: bool,
    volume_matches: bool,
    root_matches: bool,
) -> (d: IndexTrustDecision)
    ensures
        d.state == trust_state(
            IndexTrustEvidence {
                platform_history_supported: true,
                has_baseline,
                history_available,
                history_continuous,
                volume_matches,
                root_matches,
            },
        ),
        d.recommendation == recommendation_for(d.state),
{
    evaluate(
        IndexTrustEvidence {
            platform_history_supported: true,
            has_baseline,
            history_available,
            history_continuous,
            volume_matches,
            root_matches,
        },
    )
}

/// The event ID of a macOS FSEvents checkpoint, or the decision that its
/// history cannot be continued.
pub fn checkpoint_event_id(checkpoint: &IndexCheckpoint) -> (r: Result<u64, IndexTrustDecision>)
    ensures
        match r {
            Ok(id) => checkpoint_event_id_spec(*checkpoint) == Some(id),
            Err(d) => checkpoint_event_id_spec(*checkpoint) is None && d == discontinuous_decision(),
        },
{
    if !str_eq(checkpoint.platform.as_str(), "macos") || !str_eq(
        checkpoint.history_source.as_str(),
        "fsevents",
    ) {
        return Err(evidence_decision(true, true, false, true, true));
    }
    match HistoryToken::parse(checkpoint.history_token.as_str()) {
        Ok(HistoryToken::Fsevents { event_id }) => Ok(event_id),
        _ => Err(evidence_decision(true, true, false, true, true)),
    }
}

/// Where an assessment stands before any history is read: without a saved
/// checkpoint an initial scan is required; a checkpoint that is not a macOS
/// FSEvents checkpoint with a valid token cannot be continued; otherwise the
/// event ID to replay history from.
pub fn baseline_event_id(checkpoint: Option<&IndexCheckpoint>) -> (r: Result<
    u64,
    MacosIndexTrustAssessment,
>)
    ensures
        match checkpoint {
            None => r matches Err(a) && is_full_assessment(a, IndexTrustState::InitialScanRequired),
            Some(c) => match r {
                Ok(id) => checkpoint_event_id_spec(*c) == Some(id),
                Err(a) => checkpoint_event_id_spec(*c) is None && a.decision
                    == discontinuous_decision() && a.changes@.len() == 0 && !a.rescan_subtrees
                    && a.next_history_token is None,
            },
        },
{
    match checkpoint {
        None => Err(full_assessment(IndexTrustState::InitialScanRequired)),
        Some(c) => match checkpoint_event_id(c) {
            Ok(id) => Ok(id),
            Err(decision) => Err(
                MacosIndexTrustAssessment {
                    decision,
                    changes: Vec::new(),
                    rescan_subtrees: false,
                    next_history_token: None,
                },
            ),
        },
    }
}

/// The assessment when the root's current identities differ from the
/// checkpoint's, decided before any history is read: a changed volume first,
/// then a changed root; `None` when both match.
pub fn identity_assessment(
    checkpoint: &IndexCheckpoint,
    current_volume_identity: &str,
    current_root_identity: &str,
) -> (r: Option<MacosIndexTrustAssessment>)
    ensures
        match r {
            None => checkpoint.volume_identity@ == current_volume_identity@
                && checkpoint.root_identity@ == current_root_identity@,
            Some(a) => if checkpoint.volume_identity@ != current_volume_identity@ {
                is_full_assessment(a, IndexTrustState::VolumeChanged)
            } else {
                checkpoint.root_identity@ != current_root_identity@ && is_full_assessment(
                    a,
                    IndexTrustState::RootChanged,
                )
            },
        },
{
    if !str_eq(checkpoint.volume_identity.as_str(), current_volume_identity) {
        return Some(full_assessment(IndexTrustState::VolumeChanged));
    }
    if !str_eq(checkpoint.root_identity.as_str(), current_root_identity) {
        return Some(full_assessment(IndexTrustState::RootChanged));
    }
    None
}

/// Assesses a checkpoint against the current identities of its root and the
/// history replayed since it was taken.
pub fn evaluate_history(
    checkpoint: &IndexCheckpoint,
    current_volume_identity: &str,
    current_root_identity: &str,
    history: Result<FseventsHistoryRead, String>,
) -> (a: MacosIndexTrustAssessment)
    ensures
        history_assessment_matches(
            a,
            *checkpoint,
            current_volume_identity@,
            current_root_identity@,
            history_view(history),
        ),
        a.next_history_token is Some <==> a.decision.state == IndexTrustState::Trusted,
        a.changes@.len() > 0 ==> a.decision.state == IndexTrustState::Trusted,
        a.decision.recommendation == recommendation_for(a.decision.state),
{
    if !str_eq(checkpoint.volume_identity.as_str(), current_volume_identity) {
        return full_assessment(IndexTrustState::VolumeChanged);
    }
    if !str_eq(checkpoint.root_identity.as_str(), current_root_identity) {
        return full_assessment(IndexTrustState::RootChanged);
    }
    let read = match history {
        Ok(read) => read,
        Err(_) => {
            return full_assessment(IndexTrustState::HistoryUnavailable);
        },
    };
    match read.decision {
        FseventsBatchDecision::Incremental { next_event_id } => MacosIndexTrustAssessment {
            decision: evidence_decision(true, true, true, true, true),
            changes: read.changes,
            rescan_subtrees: false,
            next_history_token: Some(HistoryToken::Fsevents { event_id: next_event_id }.encode()),
        },
        FseventsBatchDecision::RescanSubtrees { next_event_id } => MacosIndexTrustAssessment {
            decision: evidence_decision(true, true, true, true, true),
            changes: read.changes,
            rescan_subtrees: true,
            next_history_token: Some(HistoryToken::Fsevents { event_id: next_event_id }.encode()),
        },
        FseventsBatchDecision::FullScan { reason: FseventsFallbackReason::RootChanged } => {
            full_assessment(IndexTrustState::RootChanged)
        },
        FseventsBatchDecision::FullScan { .. } => {
            full_assessment(IndexTrustState::HistoryDiscontinuous)
        },
    }
}

/// Assesses a root on a platform without FSEvents history: always a full scan
/// in the unsupported state, without reading the checkpoint or any history.
pub fn assess_macos_index_trust(
    root: &str,
    repository: &IndexCheckpointRepository,
    max_changes: Option<usize>,
    timeout: Duration,
) -> (r: Result<MacosIndexTrustAssessment, String>)
    ensures
        r matches Ok(a) && is_full_assessment(a, IndexTrustState::Unsupported),
{
    let _ = (root, repository, max_changes, timeout);
    Ok(full_assessment(IndexTrustState::Unsupported))
}

} // verus!
