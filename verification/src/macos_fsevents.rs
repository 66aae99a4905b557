//! FSEvents event records, the decision a history batch leads to, and the
//! checkpoint token taken from the latest event ID of a device.
use crate::change_history::HistoryToken;
use crate::text::owned;
use vstd::prelude::*;

verus! {

/// One FSEvents event: its ID and flag bits.
#[derive(Clone, Copy, Debug, PartialEq, Eq, Structural)]
pub struct FseventsEvent {
    pub event_id: u64,
    pub flags: u32,
}

/// Why a history batch cannot be applied incrementally.
#[derive(Clone, Copy, Debug, PartialEq, Eq, Structural)]
pub enum FseventsFallbackReason {
    UserDropped,
    KernelDropped,
    EventIdsWrapped,
    InvalidEventId,
    RootChanged,
}

/// What a complete history batch allows.
#[derive(Clone, Copy, Debug, PartialEq, Eq, Structural)]
pub enum FseventsBatchDecision {
    Incremental { next_event_id: u64 },
    RescanSubtrees { next_event_id: u64 },
    FullScan { reason: FseventsFallbackReason },
}

/// The checkpoint for the latest event ID of a device, or the message that
/// rejects an ID that FSEvents uses as "none" (0) or "since now" (`u64::MAX`).
pub open spec fn checkpoint_from_event_id_spec(event_id: u64) -> Result<HistoryToken, Seq<char>> {
    if event_id == 0 || event_id == u64::MAX {
        Err("FSEventsの有効なevent IDを取得できません"@)
    } else {
        Ok(HistoryToken::Fsevents { event_id })
    }
}

/// The checkpoint token for the latest event ID reported for a device.
pub fn checkpoint_from_event_id(event_id: u64) -> (r: Result<HistoryToken, String>)
    ensures
        match r {
            Ok(t) => checkpoint_from_event_id_spec(event_id) == Ok::<HistoryToken, Seq<char>>(t),
            Err(e) => checkpoint_from_event_id_spec(event_id) == Err::<HistoryToken, Seq<char>>(e@),
        },
{
    if event_id == 0 || event_id == u64::MAX {
        Err(owned("FSEventsの有効なevent IDを取得できません"))
    } else {
        Ok(HistoryToken::Fsevents { event_id })
    }
}

/// The FSEvents checkpoint of a root on a platform without FSEvents: always the
/// error that FSEvents is only available on macOS.
pub fn query_checkpoint(root: &str) -> (r: Result<HistoryToken, String>)
    ensures
        r matches Err(e) && e@ == "FSEventsはmacOSでのみ利用できます"@,
{
    let _ = root;
    Err(owned("FSEventsはmacOSでのみ利用できます"))
}

} // verus!
