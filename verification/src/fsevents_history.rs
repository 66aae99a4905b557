//! Reading FSEvents history for a root: the result type, the device-relative
//! root that the stream is created for, and the messages of its failures.
use crate::fsevents_callback::{CollectedFseventsBatch, CollectedFseventsChange, FseventsCallbackFailure};
use crate::macos_fsevents::FseventsBatchDecision;
use crate::paths::{strip_prefix, strip_prefix_spec};
use crate::text::{chars_of, concat, owned, string_of};
use std::time::Duration;
use vstd::prelude::*;

verus! {

/// The changes replayed from history and what they allow.
#[derive(Clone, Debug, PartialEq, Eq)]
pub struct FseventsHistoryRead {
    pub changes: Vec<CollectedFseventsChange>,
    pub decision: FseventsBatchDecision,
}

/// `s` without leading occurrences of `c`.
pub open spec fn trim_start_spec(s: Seq<char>, c: char) -> Seq<char>
    decreases s.len(),
{
    if s.len() > 0 && s[0] == c {
        trim_start_spec(s.drop_first(), c)
    } else {
        s
    }
}

/// `s` without trailing occurrences of `c`.
pub open spec fn trim_end_spec(s: Seq<char>, c: char) -> Seq<char>
    decreases s.len(),
{
    if s.len() > 0 && s.last() == c {
        trim_end_spec(s.drop_last(), c)
    } else {
        s
    }
}

/// `str::trim_matches` with a single character.
pub open spec fn trim_matches_spec(s: Seq<char>, c: char) -> Seq<char> {
    trim_end_spec(trim_start_spec(s, c), c)
}

/// The root relative to its mount point, without surrounding separators, or the
/// message that the root does not lie under the mount point.
pub open spec fn device_relative_root_spec(root: Seq<char>, mount_point: Seq<char>) -> Result<
    Seq<char>,
    Seq<char>,
> {
    match strip_prefix_spec(root, mount_point) {
        Some(rel) => Ok(trim_matches_spec(rel, '/')),
        None => Err("FSEventsの走査root "@ + root + " をmount point "@ + mount_point
            + " から相対化できません"@),
    }
}

/// The name of a callback failure as `Debug` prints it.
pub open spec fn failure_name(f: FseventsCallbackFailure) -> Seq<char> {
    match f {
        FseventsCallbackFailure::MalformedBatch => "MalformedBatch"@,
        FseventsCallbackFailure::InvalidPath => "InvalidPath"@,
        FseventsCallbackFailure::CapacityExceeded => "CapacityExceeded"@,
    }
}

fn trim_matches(v: &Vec<char>, c: char) -> (r: Vec<char>)
    ensures
        r@ == trim_matches_spec(v@, c),
{
    let mut start: usize = 0;
    assert(v@.skip(0) == v@);
    while start < v.len() && v[start] == c
        invariant
            start <= v.len(),
            trim_start_spec(v@, c) == trim_start_spec(v@.skip(start as int), c),
        decreases v.len() - start,
    {
        assert(v@.skip(start as int).drop_first() == v@.skip(start + 1));
        start = start + 1;
    }
    let mut end: usize = v.len();
    let ghost mid = v@.skip(start as int);
    assert(trim_start_spec(v@, c) == mid) by {
        assert(v@.skip(0) == v@);
    }
    while end > start && v[end - 1] == c
        invariant
            start <= end <= v.len(),
            mid == v@.skip(start as int),
            trim_end_spec(mid, c) == trim_end_spec(v@.subrange(start as int, end as int), c),
        decreases end,
    {
        assert(v@.subrange(start as int, end as int).drop_last() == v@.subrange(
            start as int,
            end - 1,
        ));
        end = end - 1;
    }
    let mut r: Vec<char> = Vec::new();
    let mut i: usize = start;
    while i < end
        invariant
            start <= i <= end,
            end <= v.len(),
            r@ == v@.subrange(start as int, i as int),
        decreases end - i,
    {
        r.push(v[i]);
        assert(v@.subrange(start as int, i + 1) == v@.subrange(start as int, i as int).push(
            v@[i as int],
        ));
        i = i + 1;
    }
    proof {
        assert(v@.skip(start as int) =~= v@.subrange(start as int, v.len() as int));
        assert(trim_end_spec(v@.subrange(start as int, end as int), c) == v@.subrange(start as int, end as int));
    }
    r
}

/// The root relative to the mount point it lies under.
pub fn device_relative_root(root: &str, mount_point: &str) -> (r: Result<String, String>)
    ensures
        match r {
            Ok(t) => device_relative_root_spec(root@, mount_point@) == Ok::<Seq<char>, Seq<char>>(t@),
            Err(e) => device_relative_root_spec(root@, mount_point@) == Err::<Seq<char>, Seq<char>>(e@),
        },
{
    match strip_prefix(root, mount_point) {
        Some(rel) => {
            let v = chars_of(rel.as_str());
            let t = trim_matches(&v, '/');
            Ok(string_of(&t))
        },
        None => {
            let a = concat("FSEventsの走査root ", root);
            let b = concat(a.as_str(), " をmount point ");
            let c = concat(b.as_str(), mount_point);
            Err(concat(c.as_str(), " から相対化できません"))
        },
    }
}

/// The message for a callback failure.
pub fn callback_failure_message(failure: FseventsCallbackFailure) -> (s: String)
    ensures
        s@ == "FSEvents callback batchを安全に収集できません: "@ + failure_name(failure),
{
    let name = match failure {
        FseventsCallbackFailure::MalformedBatch => "MalformedBatch",
        FseventsCallbackFailure::InvalidPath => "InvalidPath",
        FseventsCallbackFailure::CapacityExceeded => "CapacityExceeded",
    };
    concat("FSEvents callback batchを安全に収集できません: ", name)
}

/// Reads FSEvents history on a platform without FSEvents: always the error that
/// the history stream is only available on macOS.
pub fn read_history(
    root: &str,
    checkpoint_event_id: u64,
    max_changes: Option<usize>,
    timeout: Duration,
) -> (r: Result<FseventsHistoryRead, String>)
    ensures
        r matches Err(e) && e@ == "FSEvents履歴streamはmacOSでのみ利用できます"@,
{
    let _ = (root, checkpoint_event_id, max_changes, timeout);
    Err(owned("FSEvents履歴streamはmacOSでのみ利用できます"))
}

/// Whether a history read may start: the checkpoint must be a real event ID
/// (not 0 or `u64::MAX`) and the wait for the history marker must be positive.
pub fn check_history_request(checkpoint_event_id: u64, timeout_is_zero: bool) -> (r: Result<
    (),
    String,
>)
    ensures
        match r {
            Ok(()) => checkpoint_event_id != 0 && checkpoint_event_id != u64::MAX && !timeout_is_zero,
            Err(e) => if checkpoint_event_id == 0 || checkpoint_event_id == u64::MAX {
                e@ == "FSEvents checkpoint event IDが不正です"@
            } else {
                timeout_is_zero && e@ == "FSEvents履歴待機時間は0より大きい必要があります"@
            },
        },
{
    if checkpoint_event_id == 0 || checkpoint_event_id == u64::MAX {
        return Err(owned("FSEvents checkpoint event IDが不正です"));
    }
    if timeout_is_zero {
        return Err(owned("FSEvents履歴待機時間は0より大きい必要があります"));
    }
    Ok(())
}

/// What a history read does after looking at the collector.
pub enum HistoryPoll {
    /// The history marker arrived: these are the replayed changes.
    Finished(Vec<CollectedFseventsChange>),
    /// The read ends with this error.
    Failed(String),
    /// Wait a little and look again.
    Wait,
}

/// The next step of a history read: a failed collector ends it with the
/// failure's message; a collector that saw the history marker ends it with
/// its changes; otherwise it ends in a timeout once the deadline has passed,
/// and waits before that.
pub fn poll_history(
    snapshot: Result<CollectedFseventsBatch, FseventsCallbackFailure>,
    deadline_passed: bool,
) -> (p: HistoryPoll)
    ensures
        match snapshot {
            Err(f) => p matches HistoryPoll::Failed(e) && e@
                == "FSEvents callback batchを安全に収集できません: "@ + failure_name(f),
            Ok(batch) => if batch.history_done {
                p matches HistoryPoll::Finished(cs) && cs@ == batch.changes@
            } else if deadline_passed {
                p matches HistoryPoll::Failed(e) && e@
                    == "FSEvents履歴がHistoryDoneまでに完了しませんでした"@
            } else {
                p is Wait
            },
        },
{
    match snapshot {
        Err(f) => HistoryPoll::Failed(callback_failure_message(f)),
        Ok(batch) => if batch.history_done {
            HistoryPoll::Finished(batch.changes)
        } else if deadline_passed {
            HistoryPoll::Failed(owned("FSEvents履歴がHistoryDoneまでに完了しませんでした"))
        } else {
            HistoryPoll::Wait
        },
    }
}

} // verus!
