//! Debounced, classified republishing of native filesystem events.
//!
//! The native event source delivers raw notifications of many kinds; the
//! watcher classifies them into three outward kinds, drops anything that
//! arrives within the debounce window of the previously accepted event
//! (one shared clock for all kinds, not one per kind), and keeps at most
//! one session alive: starting a new session replaces the old one, and
//! stopping is idempotent.

use vstd::prelude::*;

verus! {

/// Milliseconds that must pass after an accepted event before another
/// one is accepted.
pub const DEBOUNCE_TIME: u64 = 500;

/// A native filesystem notification, reduced to what the watcher reads.
///
/// Modifications that touch data content are kept apart from the
/// metadata-only ones: the filtering policy here republishes only data
/// changes and drops metadata-only touches.
#[derive(Clone, Copy, PartialEq, Eq, Structural)]
pub enum RawEventKind {
    /// Something was created under the watched root.
    Create,
    /// Something was removed.
    Remove,
    /// A file's data content changed.
    ModifyData,
    /// Only metadata changed (permissions, timestamps, renames in place).
    ModifyMeta,
    /// Anything else the native source reports (access, rescan notices).
    Other,
}

/// The three outward notification kinds.
#[derive(Clone, Copy, PartialEq, Eq, Structural)]
pub enum EventClass {
    Created,
    Modified,
    Deleted,
}

/// One watcher: the active session, if any, and the shared debounce
/// clock (milliseconds of wall-clock time, assumed monotone).
pub struct FileWatchState {
    pub watching: bool,
    pub root_path: Option<String>,
    pub last_event_ms: u64,
}

/// How raw kinds map to outward kinds; `None` is filtered out.
pub open spec fn spec_classify(kind: RawEventKind) -> Option<EventClass> {
    match kind {
        RawEventKind::Create => Some(EventClass::Created),
        RawEventKind::Remove => Some(EventClass::Deleted),
        RawEventKind::ModifyData => Some(EventClass::Modified),
        RawEventKind::ModifyMeta => None,
        RawEventKind::Other => None,
    }
}

/// An event at `now_ms` clears the debounce window that opened at
/// `last_ms`.
pub open spec fn spec_debounce_clear(last_ms: u64, now_ms: u64) -> bool {
    now_ms >= last_ms + DEBOUNCE_TIME
}

/// The debounce clock after one event, and what that event republishes:
/// unclassifiable events never touch the clock; a classifiable one is
/// republished exactly when it clears the window, and then restarts it.
pub open spec fn spec_on_event(last_ms: u64, kind: RawEventKind, now_ms: u64) -> (
    u64,
    Option<EventClass>,
) {
    match spec_classify(kind) {
        None => (last_ms, None),
        Some(c) => if spec_debounce_clear(last_ms, now_ms) {
            (now_ms, Some(c))
        } else {
            (last_ms, None)
        },
    }
}

impl Default for FileWatchState {
    /// A watcher with no session and an open debounce window.
    fn default() -> (r: Self)
        ensures
            !r.watching,
            r.root_path is None,
            r.last_event_ms == 0,
    {
        FileWatchState { watching: false, root_path: None, last_event_ms: 0 }
    }
}

impl FileWatchState {
    /// Begins watching `path`.  A session that already exists is
    /// replaced outright: no overlap, and the debounce clock starts
    /// fresh for the new session.
    pub fn start_watching(&mut self, path: String)
        ensures
            final(self).watching,
            final(self).root_path == Some(path),
            final(self).last_event_ms == 0,
    {
        self.watching = true;
        self.root_path = Some(path);
        self.last_event_ms = 0;
    }

    /// Ends the session.  Idempotent: stopping an idle watcher is a
    /// successful no-op, so any number of consecutive stops leaves the
    /// watcher idle with no session.
    pub fn stop_watching(&mut self)
        ensures
            !final(self).watching,
            final(self).root_path is None,
            final(self).last_event_ms == old(self).last_event_ms,
    {
        self.watching = false;
        self.root_path = None;
    }

    /// Classifies one raw notification.
    pub fn classify(kind: RawEventKind) -> (r: Option<EventClass>)
        ensures
            r == spec_classify(kind),
    {
        match kind {
            RawEventKind::Create => Some(EventClass::Created),
            RawEventKind::Remove => Some(EventClass::Deleted),
            RawEventKind::ModifyData => Some(EventClass::Modified),
            RawEventKind::ModifyMeta => None,
            RawEventKind::Other => None,
        }
    }

    /// Feeds one raw notification through classification and the shared
    /// debounce clock; returns the outward kind to republish, if any.
    /// The session is not consulted: the native source only delivers
    /// events while a watch is active, and tearing the source down is
    /// what ends the flow.
    pub fn on_event(&mut self, kind: RawEventKind, now_ms: u64) -> (r: Option<EventClass>)
        ensures
            final(self).last_event_ms == spec_on_event(old(self).last_event_ms, kind, now_ms).0,
            r == spec_on_event(old(self).last_event_ms, kind, now_ms).1,
            final(self).watching == old(self).watching,
            final(self).root_path == old(self).root_path,
    {
        let classified = Self::classify(kind);
        match classified {
            None => None,
            Some(c) => {
                let last = self.last_event_ms;
                if now_ms >= last && now_ms - last >= DEBOUNCE_TIME {
                    self.last_event_ms = now_ms;
                    Some(c)
                } else {
                    None
                }
            },
        }
    }
}

/// The debounce clock and the republished kinds after a whole sequence
/// of raw events, each paired with its arrival time.
pub open spec fn run_events(last_ms: u64, evs: Seq<(RawEventKind, u64)>) -> (
    u64,
    Seq<EventClass>,
)
    decreases evs.len(),
{
    if evs.len() == 0 {
        (last_ms, Seq::empty())
    } else {
        let step = spec_on_event(last_ms, evs[0].0, evs[0].1);
        let rest = run_events(step.0, evs.drop_first());
        match step.1 {
            Some(c) => (rest.0, seq![c] + rest.1),
            None => rest,
        }
    }
}

/// Index of the first event a watcher would classify, if any.
pub open spec fn first_classifiable(evs: Seq<(RawEventKind, u64)>) -> int
    decreases evs.len(),
{
    if evs.len() == 0 {
        0
    } else if spec_classify(evs[0].0) is Some {
        0
    } else {
        1 + first_classifiable(evs.drop_first())
    }
}

/// While every event of a sequence arrives inside the open debounce
/// window, nothing is republished and the clock does not move.
pub proof fn lemma_window_swallows_all(last_ms: u64, evs: Seq<(RawEventKind, u64)>)
    requires
        forall|i: int| 0 <= i < evs.len() ==> (#[trigger] evs[i]).1 < last_ms + DEBOUNCE_TIME,
    ensures
        run_events(last_ms, evs) == (last_ms, Seq::<EventClass>::empty()),
    decreases evs.len(),
{
    if evs.len() > 0 {
        assert(evs[0].1 < last_ms + DEBOUNCE_TIME);
        lemma_window_swallows_all(last_ms, evs.drop_first());
    }
}

/// A burst of events of mixed kinds, all inside one debounce window,
/// republishes exactly one notification, and it carries the kind of the
/// first classifiable event of the burst.
pub proof fn lemma_burst_single(last_ms: u64, evs: Seq<(RawEventKind, u64)>, t0: u64)
    requires
        evs.len() > 0,
        // the burst starts at t0, runs forward, and fits in one window
        forall|i: int| 0 <= i < evs.len() ==> t0 <= (#[trigger] evs[i]).1 < t0 + DEBOUNCE_TIME,
        // the window opened by the previously accepted event has passed
        last_ms + DEBOUNCE_TIME <= t0,
        // at least one event of the burst is classifiable
        exists|i: int| 0 <= i < evs.len() && spec_classify((#[trigger] evs[i]).0) is Some,
    ensures
        run_events(last_ms, evs).1 =~= seq![
            spec_classify(evs[first_classifiable(evs)].0)->Some_0,
        ],
        0 <= first_classifiable(evs) < evs.len(),
        forall|j: int| 0 <= j < first_classifiable(evs) ==> spec_classify(
            (#[trigger] evs[j]).0,
        ) is None,
    decreases evs.len(),
{
    let rest = evs.drop_first();
    if spec_classify(evs[0].0) is Some {
        assert(spec_debounce_clear(last_ms, evs[0].1));
        let accepted_at = evs[0].1;
        assert forall|i: int| 0 <= i < rest.len() implies (#[trigger] rest[i]).1 < accepted_at
            + DEBOUNCE_TIME by {
            assert(rest[i] == evs[i + 1]);
        }
        lemma_window_swallows_all(accepted_at, rest);
    } else {
        let witness = choose|i: int|
            0 <= i < evs.len() && spec_classify((#[trigger] evs[i]).0) is Some;
        assert(witness != 0);
        assert(rest[witness - 1] == evs[witness]);
        assert forall|i: int| 0 <= i < rest.len() implies t0 <= (#[trigger] rest[i]).1 < t0
            + DEBOUNCE_TIME by {
            assert(rest[i] == evs[i + 1]);
        }
        lemma_burst_single(last_ms, rest, t0);
        assert forall|j: int| 0 <= j < first_classifiable(evs) implies spec_classify(
            (#[trigger] evs[j]).0,
        ) is None by {
            if j > 0 {
                assert(rest[j - 1] == evs[j]);
            }
        }
    }
}

} // verus!
