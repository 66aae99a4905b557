//! Collection of FSEvents callback batches into a bounded list of validated,
//! root-relative changes. Any malformed batch, unsafe path or overflow
//! invalidates the whole collection.
use crate::macos_fsevents::FseventsEvent;
use crate::paths::{components, is_absolute, parts_view, path_components, path_is_absolute, Component, PathPart};
use crate::text::{owned, utf8_text};
use vstd::prelude::*;
use vstd::utf8::{decode_utf8, valid_utf8};

verus! {

/// The flag FSEvents sets on the marker event that ends replayed history.
pub const FLAG_HISTORY_DONE: u32 = 0x0000_0010;

/// The number of changes kept when no limit is given.
pub const DEFAULT_MAX_CHANGES: usize = 4_096;

/// One change: a path relative to the watched root and its event.
#[derive(Clone, Debug, PartialEq, Eq)]
pub struct CollectedFseventsChange {
    pub relative_path: String,
    pub event: FseventsEvent,
}

/// Why a callback batch could not be collected.
#[derive(Clone, Copy, Debug, PartialEq, Eq, Structural)]
pub enum FseventsCallbackFailure {
    MalformedBatch,
    InvalidPath,
    CapacityExceeded,
}

/// The changes collected so far and whether the history marker was seen.
#[derive(Clone, Debug, PartialEq, Eq)]
pub struct CollectedFseventsBatch {
    pub changes: Vec<CollectedFseventsChange>,
    pub history_done: bool,
}

/// Accumulates callback batches up to a limit; the first failure sticks.
#[derive(Debug)]
pub struct FseventsCallbackCollector {
    max_changes: usize,
    changes: Vec<CollectedFseventsChange>,
    history_done: bool,
    failure: Option<FseventsCallbackFailure>,
}

/// The abstract content of a change: its path text and event.
pub open spec fn change_view(c: CollectedFseventsChange) -> (Seq<char>, FseventsEvent) {
    (c.relative_path@, c.event)
}

/// The abstract contents of a list of changes.
pub open spec fn changes_view(v: Seq<CollectedFseventsChange>) -> Seq<(Seq<char>, FseventsEvent)> {
    v.map_values(|c: CollectedFseventsChange| change_view(c))
}

/// The state of a collector.
pub struct CollectorState {
    pub changes: Seq<(Seq<char>, FseventsEvent)>,
    pub history_done: bool,
    pub failure: Option<FseventsCallbackFailure>,
}

/// Components that name a location under the root: only normal components, or
/// the root itself written as `.`.
pub open spec fn safe_relative_parts(cs: Seq<PathPart>) -> bool {
    (forall|i: int| 0 <= i < cs.len() ==> #[trigger] cs[i] is Normal) || cs == seq![
        PathPart::CurDir,
    ]
}

/// The text of a callback path when it is a safe relative path: nonempty, free
/// of NUL, well-formed UTF-8, not absolute, and made of safe components.
pub open spec fn validated_path_spec(bytes: Seq<u8>) -> Option<Seq<char>> {
    if bytes.len() == 0 || bytes.contains(0u8) || !valid_utf8(bytes) {
        None
    } else {
        let t = decode_utf8(bytes);
        if is_absolute(t) || !safe_relative_parts(components(t)) {
            None
        } else {
            Some(t)
        }
    }
}

/// The effect of one event on a collector that has not failed: the history
/// marker sets the done flag; otherwise an unsafe path or a full list fails
/// and clears the collector, and a safe path is appended.
pub open spec fn step_spec(
    st: CollectorState,
    path: Seq<u8>,
    event: FseventsEvent,
    max_changes: usize,
) -> (CollectorState, Option<FseventsCallbackFailure>) {
    if event.flags & FLAG_HISTORY_DONE != 0 {
        (CollectorState { history_done: true, ..st }, None)
    } else {
        match validated_path_spec(path) {
            None => (
                CollectorState {
                    changes: Seq::empty(),
                    failure: Some(FseventsCallbackFailure::InvalidPath),
                    ..st
                },
                Some(FseventsCallbackFailure::InvalidPath),
            ),
            Some(t) => if st.changes.len() >= max_changes {
                (
                    CollectorState {
                        changes: Seq::empty(),
                        failure: Some(FseventsCallbackFailure::CapacityExceeded),
                        ..st
                    },
                    Some(FseventsCallbackFailure::CapacityExceeded),
                )
            } else {
                (CollectorState { changes: st.changes.push((t, event)), ..st }, None)
            },
        }
    }
}

/// The state after the first `k` events of a batch, stopping at the first failure.
pub open spec fn run_spec(
    st: CollectorState,
    paths: Seq<Seq<u8>>,
    events: Seq<FseventsEvent>,
    max_changes: usize,
    k: int,
) -> (CollectorState, Option<FseventsCallbackFailure>)
    decreases k,
{
    if k <= 0 {
        (st, None)
    } else {
        let (s1, r1) = run_spec(st, paths, events, max_changes, k - 1);
        if r1 is Some {
            (s1, r1)
        } else {
            step_spec(s1, paths[k - 1], events[k - 1], max_changes)
        }
    }
}

/// The state and result of ingesting a whole batch: a batch whose paths and
/// events differ in number fails as malformed; a failed collector reports its
/// failure unchanged; otherwise the events are applied in order.
pub open spec fn ingest_spec(
    st: CollectorState,
    paths: Seq<Seq<u8>>,
    events: Seq<FseventsEvent>,
    max_changes: usize,
) -> (CollectorState, Option<FseventsCallbackFailure>) {
    if paths.len() != events.len() {
        (
            CollectorState {
                changes: Seq::empty(),
                failure: Some(FseventsCallbackFailure::MalformedBatch),
                ..st
            },
            Some(FseventsCallbackFailure::MalformedBatch),
        )
    } else if st.failure is Some {
        (st, st.failure)
    } else {
        run_spec(st, paths, events, max_changes, paths.len() as int)
    }
}

/// The byte views of a batch of paths.
pub open spec fn paths_view(paths: Seq<&[u8]>) -> Seq<Seq<u8>> {
    paths.map_values(|p: &[u8]| p@)
}

impl FseventsCallbackCollector {
    /// The abstract state of the collector.
    pub closed spec fn state(&self) -> CollectorState {
        CollectorState {
            changes: changes_view(self.changes@),
            history_done: self.history_done,
            failure: self.failure,
        }
    }

    /// The number of changes the collector keeps.
    pub closed spec fn capacity(&self) -> usize {
        self.max_changes
    }

    /// The collector's invariant: a positive limit, at most that many changes,
    /// and no changes kept once it has failed.
    #[verifier::type_invariant]
    spec fn wf(&self) -> bool {
        &&& self.max_changes > 0
        &&& self.changes@.len() <= self.max_changes
        &&& self.failure is Some ==> self.changes@.len() == 0
    }

    /// An empty collector keeping at most `max_changes` changes (4096 by default).
    pub fn new(max_changes: Option<usize>) -> (r: Result<Self, String>)
        ensures
            match r {
                Ok(c) => {
                    &&& max_changes != Some(0usize)
                    &&& c.capacity() == match max_changes {
                        Some(m) => m,
                        None => DEFAULT_MAX_CHANGES,
                    }
                    &&& c.state().changes.len() == 0
                    &&& !c.state().history_done
                    &&& c.state().failure is None
                },
                Err(e) => max_changes == Some(0usize) && e@
                    == "FSEvents callbackの保持上限は1以上である必要があります"@,
            },
    {
        let max_changes = match max_changes {
            Some(m) => m,
            None => DEFAULT_MAX_CHANGES,
        };
        if max_changes == 0 {
            return Err(owned("FSEvents callbackの保持上限は1以上である必要があります"));
        }
        let c = FseventsCallbackCollector {
            max_changes,
            changes: Vec::new(),
            history_done: false,
            failure: None,
        };
        assert(changes_view(c.changes@) =~= Seq::empty());
        Ok(c)
    }

    /// Adds one callback batch of paths and their events.
    pub fn ingest(&mut self, paths: &[&[u8]], events: &[FseventsEvent]) -> (r: Result<
        (),
        FseventsCallbackFailure,
    >)
        ensures
            final(self).capacity() == old(self).capacity(),
            (final(self).state(), match r {
                Ok(()) => None,
                Err(f) => Some(f),
            }) == ingest_spec(old(self).state(), paths_view(paths@), events@, old(self).capacity()),
    {
        proof {
            use_type_invariant(&*self);
        }
        if paths.len() != events.len() {
            return self.fail(FseventsCallbackFailure::MalformedBatch);
        }
        if let Some(failure) = self.failure {
            return Err(failure);
        }
        let ghost st0 = self.state();
        let ghost pv = paths_view(paths@);
        let mut i: usize = 0;
        while i < paths.len()
            invariant
                self.capacity() == old(self).capacity(),
                paths.len() == events.len(),
                i <= paths.len(),
                pv == paths_view(paths@),
                st0 == old(self).state(),
                st0.failure is None,
                self.failure is None,
                (self.state(), None::<FseventsCallbackFailure>) == run_spec(
                    st0,
                    pv,
                    events@,
                    self.capacity(),
                    i as int,
                ),
            decreases paths.len() - i,
        {
            proof {
                use_type_invariant(&*self);
            }
            let path = paths[i];
            let event = events[i];
            assert(pv[i as int] == path@);
            if event.flags & FLAG_HISTORY_DONE != 0 {
                self.history_done = true;
                i = i + 1;
                continue;
            }
            let relative_path = match validated_relative_path(path) {
                Ok(p) => p,
                Err(failure) => {
                    self.changes = Vec::new();
                    self.failure = Some(failure);
                    assert(changes_view(self.changes@) =~= Seq::empty());
                    assert(self.state() == run_spec(st0, pv, events@, self.capacity(), i + 1).0);
                    proof {
                        lemma_run_stops(st0, pv, events@, self.capacity(), i + 1);
                    }
                    return Err(failure);
                },
            };
            if self.changes.len() >= self.max_changes {
                self.changes = Vec::new();
                self.failure = Some(FseventsCallbackFailure::CapacityExceeded);
                assert(changes_view(self.changes@) =~= Seq::empty());
                proof {
                    lemma_run_stops(st0, pv, events@, self.capacity(), i + 1);
                }
                return Err(FseventsCallbackFailure::CapacityExceeded);
            }
            let ghost before = self.changes@;
            let mut changes: Vec<CollectedFseventsChange> = Vec::new();
            std::mem::swap(&mut changes, &mut self.changes);
            changes.push(CollectedFseventsChange { relative_path, event });
            self.changes = changes;
            assert(changes_view(self.changes@) =~= changes_view(before).push(
                (relative_path@, event),
            ));
            i = i + 1;
        }
        Ok(())
    }

    /// The changes collected so far, or the failure that invalidated them.
    pub fn snapshot(&self) -> (r: Result<CollectedFseventsBatch, FseventsCallbackFailure>)
        ensures
            match r {
                Ok(b) => self.state().failure is None && changes_view(b.changes@)
                    == self.state().changes && b.history_done == self.state().history_done,
                Err(f) => self.state().failure == Some(f),
            },
    {
        if let Some(failure) = self.failure {
            return Err(failure);
        }
        let mut changes: Vec<CollectedFseventsChange> = Vec::new();
        let mut i: usize = 0;
        while i < self.changes.len()
            invariant
                i <= self.changes.len(),
                changes_view(changes@) == changes_view(self.changes@.take(i as int)),
            decreases self.changes.len() - i,
        {
            let c = &self.changes[i];
            let ghost before = changes@;
            changes.push(CollectedFseventsChange { relative_path: c.relative_path.clone(), event: c.event });
            assert(self.changes@.take(i + 1) == self.changes@.take(i as int).push(*c));
            assert(changes_view(changes@) =~= changes_view(before).push(change_view(*c)));
            assert(changes_view(self.changes@.take(i + 1)) =~= changes_view(
                self.changes@.take(i as int),
            ).push(change_view(*c)));
            i = i + 1;
        }
        assert(self.changes@.take(self.changes.len() as int) == self.changes@);
        Ok(CollectedFseventsBatch { changes, history_done: self.history_done })
    }

    /// Clears the collected changes and records `failure`.
    fn fail(&mut self, failure: FseventsCallbackFailure) -> (r: Result<(), FseventsCallbackFailure>)
        ensures
            final(self).capacity() == old(self).capacity(),
            final(self).state() == (CollectorState {
                changes: Seq::empty(),
                failure: Some(failure),
                ..old(self).state()
            }),
            r == Err::<(), FseventsCallbackFailure>(failure),
    {
        proof {
            use_type_invariant(&*self);
        }
        self.changes = Vec::new();
        self.failure = Some(failure);
        assert(changes_view(self.changes@) =~= Seq::empty());
        Err(failure)
    }
}

proof fn lemma_run_stops(
    st: CollectorState,
    paths: Seq<Seq<u8>>,
    events: Seq<FseventsEvent>,
    max_changes: usize,
    k: int,
)
    requires
        0 <= k <= paths.len(),
        run_spec(st, paths, events, max_changes, k).1 is Some,
    ensures
        run_spec(st, paths, events, max_changes, paths.len() as int) == run_spec(
            st,
            paths,
            events,
            max_changes,
            k,
        ),
    decreases paths.len() - k,
{
    if k < paths.len() {
        lemma_run_stops(st, paths, events, max_changes, k + 1);
    }
}

fn contains_nul(bytes: &[u8]) -> (r: bool)
    ensures
        r == bytes@.contains(0u8),
{
    let mut i: usize = 0;
    while i < bytes.len()
        invariant
            i <= bytes.len(),
            forall|j: int| 0 <= j < i ==> bytes@[j] != 0u8,
        decreases bytes.len() - i,
    {
        if bytes[i] == 0 {
            assert(bytes@[i as int] == 0u8);
            return true;
        }
        i = i + 1;
    }
    false
}

fn safe_components(cs: &Vec<Component>) -> (r: bool)
    ensures
        r == safe_relative_parts(parts_view(cs@)),
{
    let ghost pv = parts_view(cs@);
    if cs.len() == 1 && matches!(cs[0], Component::CurDir) {
        assert(pv =~= seq![PathPart::CurDir]);
        return true;
    }
    let mut i: usize = 0;
    while i < cs.len()
        invariant
            i <= cs.len(),
            pv == parts_view(cs@),
            !(cs.len() == 1 && cs@[0]@ == PathPart::CurDir),
            forall|j: int| 0 <= j < i ==> #[trigger] pv[j] is Normal,
        decreases cs.len() - i,
    {
        if !matches!(cs[i], Component::Normal(_)) {
            assert(!(pv[i as int] is Normal));
            assert(pv != seq![PathPart::CurDir]) by {
                assert(pv.len() == cs@.len());
                if pv =~= seq![PathPart::CurDir] {
                    assert(pv.len() == 1);
                    assert(pv[0] == cs@[0]@);
                }
            }
            return false;
        }
        i = i + 1;
    }
    true
}

/// The text of a callback path when it is a safe relative path.
pub fn validated_relative_path(bytes: &[u8]) -> (r: Result<String, FseventsCallbackFailure>)
    ensures
        match r {
            Ok(t) => validated_path_spec(bytes@) == Some(t@),
            Err(f) => validated_path_spec(bytes@) is None && f
                == FseventsCallbackFailure::InvalidPath,
        },
{
    if bytes.len() == 0 || contains_nul(bytes) {
        return Err(FseventsCallbackFailure::InvalidPath);
    }
    let text = match utf8_text(bytes) {
        Some(t) => t,
        None => {
            return Err(FseventsCallbackFailure::InvalidPath);
        },
    };
    if path_is_absolute(text.as_str()) {
        return Err(FseventsCallbackFailure::InvalidPath);
    }
    let cs = path_components(text.as_str());
    if !safe_components(&cs) {
        return Err(FseventsCallbackFailure::InvalidPath);
    }
    Ok(text)
}

/// A path the collector may hold: relative and made of safe components.
pub open spec fn safe_change_path(t: Seq<char>) -> bool {
    !is_absolute(t) && safe_relative_parts(components(t))
}

/// Every held change has a safe path.
pub open spec fn all_safe(cs: Seq<(Seq<char>, FseventsEvent)>) -> bool {
    forall|i: int| 0 <= i < cs.len() ==> safe_change_path(#[trigger] cs[i].0)
}

proof fn lemma_run_keeps_safe(
    st: CollectorState,
    paths: Seq<Seq<u8>>,
    events: Seq<FseventsEvent>,
    max_changes: usize,
    k: int,
)
    requires
        all_safe(st.changes),
    ensures
        all_safe(run_spec(st, paths, events, max_changes, k).0.changes),
    decreases k,
{
    if k > 0 {
        lemma_run_keeps_safe(st, paths, events, max_changes, k - 1);
        let (s1, r1) = run_spec(st, paths, events, max_changes, k - 1);
        if r1 is None {
            let s2 = step_spec(s1, paths[k - 1], events[k - 1], max_changes).0;
            if events[k - 1].flags & FLAG_HISTORY_DONE == 0 {
                if let Some(t) = validated_path_spec(paths[k - 1]) {
                    if s1.changes.len() < max_changes {
                        assert(s2.changes == s1.changes.push((t, events[k - 1])));
                        assert forall|i: int| 0 <= i < s2.changes.len() implies safe_change_path(
                            #[trigger] s2.changes[i].0,
                        ) by {
                            if i < s1.changes.len() {
                                assert(s2.changes[i] == s1.changes[i]);
                            }
                        }
                    }
                }
            }
        }
    }
}

/// The collector only ever holds safe relative paths: ingesting any batch
/// into a collector whose changes are safe leaves only safe changes.
pub proof fn lemma_collected_paths_are_safe(
    st: CollectorState,
    paths: Seq<Seq<u8>>,
    events: Seq<FseventsEvent>,
    max_changes: usize,
)
    requires
        all_safe(st.changes),
    ensures
        all_safe(ingest_spec(st, paths, events, max_changes).0.changes),
{
    lemma_run_keeps_safe(st, paths, events, max_changes, paths.len() as int);
}

/// Once a collector has failed, a well-formed batch leaves it as it is and
/// reports the same failure; only a batch whose paths and events differ in
/// number replaces the failure.
pub proof fn lemma_failure_sticks(
    st: CollectorState,
    paths: Seq<Seq<u8>>,
    events: Seq<FseventsEvent>,
    max_changes: usize,
)
    requires
        st.failure is Some,
        paths.len() == events.len(),
    ensures
        ingest_spec(st, paths, events, max_changes) == (st, st.failure),
{
}


// ---------------------------------------------------------------------------
// A sequence of batches
// ---------------------------------------------------------------------------

/// The state of a new collector: nothing collected, no marker, no failure.
pub open spec fn fresh_state() -> CollectorState {
    CollectorState { changes: Seq::empty(), history_done: false, failure: None }
}

/// Whether an event is the marker that ends replayed history.
pub open spec fn is_marker(e: FseventsEvent) -> bool {
    e.flags & FLAG_HISTORY_DONE != 0
}

/// The changes the first `k` events of a batch stand for: each event other
/// than the history marker with the text of its path, in order.
pub open spec fn kept_changes(paths: Seq<Seq<u8>>, events: Seq<FseventsEvent>, k: int) -> Seq<
    (Seq<char>, FseventsEvent),
>
    decreases k,
{
    if k <= 0 {
        Seq::empty()
    } else {
        let r = kept_changes(paths, events, k - 1);
        if is_marker(events[k - 1]) {
            r
        } else {
            r.push((decode_utf8(paths[k - 1]), events[k - 1]))
        }
    }
}

/// Some of the first `k` events is the history marker.
pub open spec fn has_marker(events: Seq<FseventsEvent>, k: int) -> bool {
    exists|m: int| 0 <= m < k && #[trigger] is_marker(events[m])
}

/// A batch holds the history marker.
pub open spec fn batch_has_marker(b: (Seq<Seq<u8>>, Seq<FseventsEvent>)) -> bool {
    has_marker(b.1, b.1.len() as int)
}

/// The state after ingesting the batches (paths and events) in order.
pub open spec fn ingest_all(
    st: CollectorState,
    batches: Seq<(Seq<Seq<u8>>, Seq<FseventsEvent>)>,
    max_changes: usize,
) -> CollectorState
    decreases batches.len(),
{
    if batches.len() == 0 {
        st
    } else {
        ingest_spec(
            ingest_all(st, batches.drop_last(), max_changes),
            batches.last().0,
            batches.last().1,
            max_changes,
        ).0
    }
}

/// The failure, if any, that ingesting the batch at `i` reports when the
/// batches are ingested in order.
pub open spec fn ingest_result_at(
    st: CollectorState,
    batches: Seq<(Seq<Seq<u8>>, Seq<FseventsEvent>)>,
    max_changes: usize,
    i: int,
) -> Option<FseventsCallbackFailure> {
    ingest_spec(ingest_all(st, batches.take(i), max_changes), batches[i].0, batches[i].1, max_changes).1
}

/// All changes the batches stand for, in the order they were ingested.
pub open spec fn all_kept(batches: Seq<(Seq<Seq<u8>>, Seq<FseventsEvent>)>) -> Seq<
    (Seq<char>, FseventsEvent),
>
    decreases batches.len(),
{
    if batches.len() == 0 {
        Seq::empty()
    } else {
        all_kept(batches.drop_last()) + kept_changes(
            batches.last().0,
            batches.last().1,
            batches.last().1.len() as int,
        )
    }
}

/// Some batch holds the history marker.
pub open spec fn any_marker(batches: Seq<(Seq<Seq<u8>>, Seq<FseventsEvent>)>) -> bool {
    exists|i: int| 0 <= i < batches.len() && batch_has_marker(#[trigger] batches[i])
}

proof fn lemma_run_outcome(
    st: CollectorState,
    paths: Seq<Seq<u8>>,
    events: Seq<FseventsEvent>,
    max_changes: usize,
    k: int,
)
    requires
        0 <= k <= paths.len(),
        paths.len() == events.len(),
        st.failure is None,
    ensures
        run_spec(st, paths, events, max_changes, k).1 is Some ==> run_spec(
            st,
            paths,
            events,
            max_changes,
            k,
        ).0.failure == run_spec(st, paths, events, max_changes, k).1,
        run_spec(st, paths, events, max_changes, k).1 is None ==> {
            let s = run_spec(st, paths, events, max_changes, k).0;
            &&& s.failure is None
            &&& s.changes == st.changes + kept_changes(paths, events, k)
            &&& s.history_done == (st.history_done || has_marker(events, k))
            &&& st.changes.len() <= max_changes ==> s.changes.len() <= max_changes
        },
    decreases k,
{
    if k == 0 {
        assert(st.changes + kept_changes(paths, events, 0) =~= st.changes);
    } else {
        lemma_run_outcome(st, paths, events, max_changes, k - 1);
        let (s1, r1) = run_spec(st, paths, events, max_changes, k - 1);
        if r1 is None {
            let e = events[k - 1];
            assert(has_marker(events, k) == (has_marker(events, k - 1) || is_marker(e))) by {
                if has_marker(events, k) {
                    let m = choose|m: int| 0 <= m < k && #[trigger] is_marker(events[m]);
                    if m < k - 1 {
                        assert(has_marker(events, k - 1));
                    }
                }
                if has_marker(events, k - 1) {
                    let m = choose|m: int| 0 <= m < k - 1 && #[trigger] is_marker(events[m]);
                    assert(0 <= m < k && is_marker(events[m]));
                }
                if is_marker(e) {
                    assert(0 <= k - 1 < k && is_marker(events[k - 1]));
                }
            }
            if !is_marker(e) {
                match validated_path_spec(paths[k - 1]) {
                    Some(t) => {
                        if s1.changes.len() < max_changes {
                            assert(s1.changes.push((t, e)) =~= st.changes + kept_changes(
                                paths,
                                events,
                                k,
                            ));
                        }
                    },
                    None => {},
                }
            }
        }
    }
}

proof fn lemma_ingest_outcome(
    st: CollectorState,
    paths: Seq<Seq<u8>>,
    events: Seq<FseventsEvent>,
    max_changes: usize,
)
    ensures
        st.failure is Some ==> ingest_spec(st, paths, events, max_changes).1 is Some
            && ingest_spec(st, paths, events, max_changes).0.failure is Some,
        ingest_spec(st, paths, events, max_changes).1 is Some ==> ingest_spec(
            st,
            paths,
            events,
            max_changes,
        ).0.failure is Some,
        ingest_spec(st, paths, events, max_changes).0.failure is None ==> {
            let s = ingest_spec(st, paths, events, max_changes).0;
            &&& st.failure is None
            &&& ingest_spec(st, paths, events, max_changes).1 is None
            &&& s.changes == st.changes + kept_changes(paths, events, events.len() as int)
            &&& s.history_done == (st.history_done || has_marker(events, events.len() as int))
            &&& st.changes.len() <= max_changes ==> s.changes.len() <= max_changes
        },
{
    if paths.len() == events.len() && st.failure is None {
        lemma_run_outcome(st, paths, events, max_changes, paths.len() as int);
    }
}

proof fn lemma_take_step(
    st: CollectorState,
    batches: Seq<(Seq<Seq<u8>>, Seq<FseventsEvent>)>,
    max_changes: usize,
    k: int,
)
    requires
        0 <= k < batches.len(),
    ensures
        ingest_all(st, batches.take(k + 1), max_changes) == ingest_spec(
            ingest_all(st, batches.take(k), max_changes),
            batches[k].0,
            batches[k].1,
            max_changes,
        ).0,
        all_kept(batches.take(k + 1)) == all_kept(batches.take(k)) + kept_changes(
            batches[k].0,
            batches[k].1,
            batches[k].1.len() as int,
        ),
        any_marker(batches.take(k + 1)) == (any_marker(batches.take(k)) || batch_has_marker(
            batches[k],
        )),
{
    let t = batches.take(k + 1);
    assert(t.drop_last() =~= batches.take(k));
    assert(t.last() == batches[k]);
    let u = batches.take(k);
    if any_marker(t) {
        let i = choose|i: int| 0 <= i < t.len() && batch_has_marker(#[trigger] t[i]);
        if i < k {
            assert(u[i] == t[i]);
            assert(any_marker(u));
        }
    }
    if any_marker(u) {
        let i = choose|i: int| 0 <= i < u.len() && batch_has_marker(#[trigger] u[i]);
        assert(t[i] == u[i]);
        assert(any_marker(t));
    }
    if batch_has_marker(batches[k]) {
        assert(t[k] == batches[k]);
        assert(any_marker(t));
    }
}

proof fn lemma_failure_persists(
    st: CollectorState,
    batches: Seq<(Seq<Seq<u8>>, Seq<FseventsEvent>)>,
    max_changes: usize,
    i: int,
)
    requires
        0 <= i <= batches.len(),
        ingest_all(st, batches.take(i), max_changes).failure is Some,
    ensures
        forall|j: int| i <= j < batches.len() ==> (#[trigger] ingest_result_at(st, batches, max_changes, j)) is Some,
        ingest_all(st, batches, max_changes).failure is Some,
    decreases batches.len() - i,
{
    if i == batches.len() {
        assert(batches.take(i) =~= batches);
    } else {
        lemma_ingest_outcome(ingest_all(st, batches.take(i), max_changes), batches[i].0, batches[i].1, max_changes);
        lemma_take_step(st, batches, max_changes, i);
        lemma_failure_persists(st, batches, max_changes, i + 1);
    }
}

proof fn lemma_clean_prefix(
    st: CollectorState,
    batches: Seq<(Seq<Seq<u8>>, Seq<FseventsEvent>)>,
    max_changes: usize,
    k: int,
)
    requires
        0 <= k <= batches.len(),
        st.failure is None,
        st.changes.len() <= max_changes,
        ingest_all(st, batches.take(k), max_changes).failure is None,
    ensures
        ingest_all(st, batches.take(k), max_changes).changes == st.changes + all_kept(batches.take(k)),
        ingest_all(st, batches.take(k), max_changes).changes.len() <= max_changes,
        ingest_all(st, batches.take(k), max_changes).history_done == (st.history_done || any_marker(
            batches.take(k),
        )),
    decreases k,
{
    if k == 0 {
        let e = batches.take(0);
        assert(e =~= Seq::<(Seq<Seq<u8>>, Seq<FseventsEvent>)>::empty());
        assert(st.changes + all_kept(e) =~= st.changes);
    } else {
        lemma_take_step(st, batches, max_changes, k - 1);
        let prev = ingest_all(st, batches.take(k - 1), max_changes);
        lemma_ingest_outcome(prev, batches[k - 1].0, batches[k - 1].1, max_changes);
        lemma_clean_prefix(st, batches, max_changes, k - 1);
        assert(st.changes + all_kept(batches.take(k - 1)) + kept_changes(
            batches[k - 1].0,
            batches[k - 1].1,
            batches[k - 1].1.len() as int,
        ) =~= st.changes + all_kept(batches.take(k)));
    }
}

/// Ingesting a sequence of batches into a new collector: once a batch has
/// been refused, every later batch is refused too and the collector stays
/// failed, so its snapshot fails; while none has been refused, the collector
/// holds, in the order they were ingested, exactly the changes of the batches
/// other than the history marker, never more than its capacity, and its
/// history is done exactly when some ingested event was the marker.
pub proof fn lemma_collector_sequence(
    batches: Seq<(Seq<Seq<u8>>, Seq<FseventsEvent>)>,
    max_changes: usize,
)
    ensures
        forall|i: int, j: int|
            0 <= i < j < batches.len() && (#[trigger] ingest_result_at(
                fresh_state(),
                batches,
                max_changes,
                i,
            )) is Some ==> (#[trigger] ingest_result_at(fresh_state(), batches, max_changes, j)) is Some,
        forall|i: int|
            0 <= i < batches.len() && (#[trigger] ingest_result_at(
                fresh_state(),
                batches,
                max_changes,
                i,
            )) is Some ==> ingest_all(fresh_state(), batches, max_changes).failure is Some,
        ingest_all(fresh_state(), batches, max_changes).failure is None ==> {
            let s = ingest_all(fresh_state(), batches, max_changes);
            &&& s.changes == all_kept(batches)
            &&& s.changes.len() <= max_changes
            &&& s.history_done == any_marker(batches)
        },
{
    let st = fresh_state();
    assert forall|i: int|
        0 <= i < batches.len() && (#[trigger] ingest_result_at(st, batches, max_changes, i)) is Some implies {
        &&& ingest_all(st, batches, max_changes).failure is Some
        &&& forall|j: int| i < j < batches.len() ==> (#[trigger] ingest_result_at(st, batches, max_changes, j)) is Some
    } by {
        let si = ingest_all(st, batches.take(i), max_changes);
        lemma_ingest_outcome(si, batches[i].0, batches[i].1, max_changes);
        lemma_take_step(st, batches, max_changes, i);
        lemma_failure_persists(st, batches, max_changes, i + 1);
    }
    if ingest_all(st, batches, max_changes).failure is None {
        assert(batches.take(batches.len() as int) =~= batches);
        lemma_clean_prefix(st, batches, max_changes, batches.len() as int);
        assert(st.changes + all_kept(batches) =~= all_kept(batches));
    }
}

} // verus!
