//! Runtime state of a cache entry inferred from two metadata observations taken
//! around a scan. Only what can be observed is reported: a stable result does
//! not claim that no other process uses the file.
use crate::text::{chars_of, owned, str_eq};
use vstd::prelude::*;

verus! {

/// Runtime state inferred from two metadata observations.
#[derive(Clone, Copy, Debug, PartialEq, Eq, Structural)]
pub enum CacheRuntimeState {
    Stable,
    Changing,
    Unknown,
}

/// Metadata observed for one path at one moment; each field may be unavailable.
#[derive(Clone, Debug, PartialEq, Eq)]
pub struct CacheObservation {
    pub logical_size: Option<u64>,
    pub modified_at: Option<i64>,
    pub file_identity: Option<String>,
}

/// The text of an optional string.
pub open spec fn opt_text(s: Option<String>) -> Option<Seq<char>> {
    match s {
        Some(t) => Some(t@),
        None => None,
    }
}

/// An observation carries at least one usable field.
pub open spec fn has_signal_spec(o: CacheObservation) -> bool {
    o.logical_size is Some || o.modified_at is Some || o.file_identity is Some
}

/// Two observations agree on every observable field.
pub open spec fn same_observation(a: CacheObservation, b: CacheObservation) -> bool {
    &&& opt_text(a.file_identity) == opt_text(b.file_identity)
    &&& a.logical_size == b.logical_size
    &&& a.modified_at == b.modified_at
}

/// The runtime state for a pair of observations: unknown when one is missing or
/// carries no usable field, changing when an observable field differs, stable otherwise.
pub open spec fn runtime_state_spec(
    before: Option<CacheObservation>,
    after: Option<CacheObservation>,
) -> CacheRuntimeState {
    match (before, after) {
        (Some(b), Some(a)) => if !has_signal_spec(b) || !has_signal_spec(a) {
            CacheRuntimeState::Unknown
        } else if !same_observation(b, a) {
            CacheRuntimeState::Changing
        } else {
            CacheRuntimeState::Stable
        },
        _ => CacheRuntimeState::Unknown,
    }
}

/// The stored label of a runtime state.
pub open spec fn state_label(s: CacheRuntimeState) -> Seq<char> {
    match s {
        CacheRuntimeState::Stable => "stable"@,
        CacheRuntimeState::Changing => "changing"@,
        CacheRuntimeState::Unknown => "unknown"@,
    }
}

impl Default for CacheObservation {
    fn default() -> (o: Self)
        ensures
            o.logical_size is None,
            o.modified_at is None,
            o.file_identity is None,
    {
        CacheObservation { logical_size: None, modified_at: None, file_identity: None }
    }
}

impl CacheObservation {
    fn has_signal(&self) -> (b: bool)
        ensures
            b == has_signal_spec(*self),
    {
        self.logical_size.is_some() || self.modified_at.is_some() || self.file_identity.is_some()
    }
}

impl CacheRuntimeState {
    /// The label under which the state is stored.
    pub fn as_str(&self) -> (s: &'static str)
        ensures
            s@ == state_label(*self),
    {
        match self {
            CacheRuntimeState::Stable => "stable",
            CacheRuntimeState::Changing => "changing",
            CacheRuntimeState::Unknown => "unknown",
        }
    }

    /// The state stored under `value`, if it is one of the three labels.
    pub fn from_str(value: &str) -> (r: Option<CacheRuntimeState>)
        ensures
            r matches Some(s) ==> state_label(s) == value@,
            r is None ==> forall|s: CacheRuntimeState| state_label(s) != value@,
    {
        if str_eq(value, "stable") {
            Some(CacheRuntimeState::Stable)
        } else if str_eq(value, "changing") {
            Some(CacheRuntimeState::Changing)
        } else if str_eq(value, "unknown") {
            Some(CacheRuntimeState::Unknown)
        } else {
            assert forall|s: CacheRuntimeState| state_label(s) != value@ by {
                match s {
                    CacheRuntimeState::Stable => {},
                    CacheRuntimeState::Changing => {},
                    CacheRuntimeState::Unknown => {},
                }
            }
            None
        }
    }
}

/// The labels of distinct states differ, so a stored label names one state.
pub proof fn lemma_state_labels_distinct(a: CacheRuntimeState, b: CacheRuntimeState)
    requires
        a != b,
    ensures
        state_label(a) != state_label(b),
{
    reveal_strlit("stable");
    reveal_strlit("changing");
    reveal_strlit("unknown");
    assert("stable"@[0] != "changing"@[0]);
    assert("stable"@[0] != "unknown"@[0]);
    assert("changing"@[0] != "unknown"@[0]);
}

fn opt_string_eq(a: &Option<String>, b: &Option<String>) -> (r: bool)
    ensures
        r == (opt_text(*a) == opt_text(*b)),
{
    match (a, b) {
        (Some(x), Some(y)) => str_eq(x.as_str(), y.as_str()),
        (None, None) => true,
        _ => false,
    }
}

/// Compares observations captured around a scan.
///
/// Missing observations, or observations with no usable metadata, remain
/// unknown. A changed identity, size, or modification time is reported as
/// changing. Equal observable fields are reported as stable.
pub fn evaluate_runtime_state(
    before: Option<&CacheObservation>,
    after: Option<&CacheObservation>,
) -> (r: CacheRuntimeState)
    ensures
        r == runtime_state_spec(
            match before {
                Some(b) => Some(*b),
                None => None,
            },
            match after {
                Some(a) => Some(*a),
                None => None,
            },
        ),
{
    let (b, a) = match (before, after) {
        (Some(b), Some(a)) => (b, a),
        _ => {
            return CacheRuntimeState::Unknown;
        },
    };
    if !b.has_signal() || !a.has_signal() {
        return CacheRuntimeState::Unknown;
    }
    if !opt_string_eq(&b.file_identity, &a.file_identity) || b.logical_size != a.logical_size
        || b.modified_at != a.modified_at {
        CacheRuntimeState::Changing
    } else {
        CacheRuntimeState::Stable
    }
}

/// The state of two observations is unknown when either is missing or carries
/// none of size, modification time and identity; otherwise it is stable when
/// their sizes, modification times and identities are all equal, and changing
/// when any of them differs.
pub proof fn lemma_runtime_state_needs_metadata(
    before: Option<CacheObservation>,
    after: Option<CacheObservation>,
)
    ensures
        before is None ==> runtime_state_spec(before, after) == CacheRuntimeState::Unknown,
        after is None ==> runtime_state_spec(before, after) == CacheRuntimeState::Unknown,
        before matches Some(b) && b.logical_size is None && b.modified_at is None
            && b.file_identity is None ==> runtime_state_spec(before, after)
            == CacheRuntimeState::Unknown,
        after matches Some(a) && a.logical_size is None && a.modified_at is None
            && a.file_identity is None ==> runtime_state_spec(before, after)
            == CacheRuntimeState::Unknown,
        runtime_state_spec(before, after) != CacheRuntimeState::Unknown ==> {
            &&& before matches Some(b) && (b.logical_size is Some || b.modified_at is Some
                || b.file_identity is Some)
            &&& after matches Some(a) && (a.logical_size is Some || a.modified_at is Some
                || a.file_identity is Some)
        },
        runtime_state_spec(before, after) != CacheRuntimeState::Unknown ==> (runtime_state_spec(
            before,
            after,
        ) == CacheRuntimeState::Stable <==> {
            let b = before->Some_0;
            let a = after->Some_0;
            &&& b.logical_size == a.logical_size
            &&& b.modified_at == a.modified_at
            &&& match (b.file_identity, a.file_identity) {
                (None, None) => true,
                (Some(x), Some(y)) => x@ == y@,
                _ => false,
            }
        }),
{
}

} // verus!
