//! When the layout is written to disk: a while after the last change, and again
//! after a failure, with growing pauses.
use vstd::prelude::*;

use crate::clock::{Duration, Instant};
use crate::events::Event;

verus! {

/// How long nothing has to change before the state is saved.
pub const SAVE_DEBOUNCE_NANOS: u64 = 250_000_000;

/// How long after the first failure a save is tried again.
pub const RETRY_INITIAL_NANOS: u64 = 1_000_000_000;

/// The longest pause between two tries.
pub const RETRY_MAX_NANOS: u64 = 60_000_000_000;

/// Whether there is something to save, and when.
#[derive(Clone, Copy, Debug, PartialEq, Eq, Structural)]
pub struct PersistenceState {
    pub dirty: bool,
    pub save_at: Option<Instant>,
    /// The pause after the next failure.
    pub retry_delay: Duration,
}

impl Default for PersistenceState {
    fn default() -> (state: Self)
        ensures
            state == PersistenceState::clean(),
    {
        PersistenceState {
            dirty: false,
            save_at: None,
            retry_delay: Duration { nanos: RETRY_INITIAL_NANOS },
        }
    }
}

impl PersistenceState {
    /// Nothing is to be saved.
    pub open spec fn clean() -> PersistenceState {
        PersistenceState {
            dirty: false,
            save_at: None,
            retry_delay: Duration { nanos: RETRY_INITIAL_NANOS },
        }
    }

    /// A save is scheduled exactly while there is something to save, and the
    /// pause between tries is within its bounds.
    pub open spec fn wf(self) -> bool {
        &&& self.dirty == (self.save_at is Some)
        &&& RETRY_INITIAL_NANOS <= self.retry_delay.nanos <= RETRY_MAX_NANOS
        &&& !self.dirty ==> self == PersistenceState::clean()
    }

    /// The state after a change at `now`, where saving is enabled.
    pub open spec fn changed(now: Instant) -> PersistenceState {
        PersistenceState {
            dirty: true,
            save_at: Some(Instant { nanos: (now.nanos + SAVE_DEBOUNCE_NANOS) as u64 }),
            retry_delay: Duration { nanos: RETRY_INITIAL_NANOS },
        }
    }

    /// The state after a frame in which something that is saved changed, or did not.
    pub open spec fn noted(self, enabled: bool, matters: bool, now: Instant) -> PersistenceState {
        if !enabled {
            PersistenceState::clean()
        } else if matters {
            PersistenceState::changed(now)
        } else {
            self
        }
    }

    /// There is something to save, and it is time.
    pub open spec fn is_due(self, now: Instant) -> bool {
        self.dirty && self.save_at is Some && now.nanos >= self.save_at->0.nanos
    }

    /// A save is tried now.
    pub open spec fn is_flushed(self, enabled: bool, now: Instant) -> bool {
        enabled && self.is_due(now)
    }

    /// A save is tried before all ends.
    pub open spec fn is_flushed_on_exit(self, exiting: bool, enabled: bool) -> bool {
        exiting && enabled && self.dirty
    }

    /// The state after a save failed at `now`.
    pub open spec fn failed(self, now: Instant) -> PersistenceState {
        PersistenceState {
            dirty: true,
            save_at: Some(Instant { nanos: (now.nanos + self.retry_delay.nanos) as u64 }),
            retry_delay: Duration {
                nanos: if 2 * self.retry_delay.nanos < RETRY_MAX_NANOS {
                    (2 * self.retry_delay.nanos) as u64
                } else {
                    RETRY_MAX_NANOS
                },
            },
        }
    }

    /// The clock can hold the time of the next try.
    pub open spec fn can_fail(self, now: Instant) -> bool {
        now.nanos + self.retry_delay.nanos <= u64::MAX
    }

    /// Whether there is something to save.
    pub fn is_dirty(&self) -> (dirty: bool)
        ensures
            dirty == self.dirty,
    {
        self.dirty
    }

    /// When the next save is to be made.
    pub fn next_deadline(&self) -> (deadline: Option<Instant>)
        ensures
            deadline == self.save_at,
    {
        self.save_at
    }

    /// Notes a change. Each one puts the save off again; where saving is
    /// disabled nothing is left to save.
    pub fn mark_changed(&mut self, enabled: bool, now: Instant)
        requires
            enabled ==> now.nanos + SAVE_DEBOUNCE_NANOS <= u64::MAX,
        ensures
            *final(self) == if enabled {
                PersistenceState::changed(now)
            } else {
                PersistenceState::clean()
            },
            final(self).wf(),
    {
        if enabled {
            self.dirty = true;
            self.save_at = Some(now.plus(Duration { nanos: SAVE_DEBOUNCE_NANOS }));
            self.retry_delay = Duration { nanos: RETRY_INITIAL_NANOS };
        } else {
            self.clear();
        }
    }

    /// Whether there is something to save, and it is time.
    pub fn due(&self, now: Instant) -> (due: bool)
        ensures
            due == self.is_due(now),
    {
        self.dirty && (match self.save_at {
            Some(deadline) => now.nanos >= deadline.nanos,
            None => false,
        })
    }

    /// Notes that the state was saved.
    pub fn saved(&mut self)
        ensures
            *final(self) == PersistenceState::clean(),
            final(self).wf(),
    {
        self.clear();
    }

    /// Notes that saving failed: it is tried again after a pause, and the next
    /// pause is twice as long, up to a limit.
    pub fn save_failed(&mut self, now: Instant)
        requires
            old(self).can_fail(now),
        ensures
            *final(self) == old(self).failed(now),
            old(self).wf() ==> final(self).wf(),
    {
        self.dirty = true;
        self.save_at = Some(now.plus(self.retry_delay));
        let delay: u64 = self.retry_delay.nanos;
        let next: u64 = if delay < RETRY_MAX_NANOS / 2 {
            delay * 2
        } else {
            RETRY_MAX_NANOS
        };
        self.retry_delay = Duration { nanos: next };
    }

    /// Forgets what was to be saved.
    pub fn clear(&mut self)
        ensures
            *final(self) == PersistenceState::clean(),
            final(self).wf(),
    {
        self.dirty = false;
        self.save_at = None;
        self.retry_delay = Duration { nanos: RETRY_INITIAL_NANOS };
    }
}

/// The state after saving failed at each of these times in turn.
pub open spec fn failed_at(state: PersistenceState, times: Seq<Instant>) -> PersistenceState
    decreases times.len(),
{
    if times.len() == 0 {
        state
    } else {
        failed_at(state, times.drop_last()).failed(times.last())
    }
}

/// After any number of failures in a row the state is still to be saved, and
/// the pauses double from the first one until they reach the longest.
pub proof fn law_backoff_is_bounded(start: Instant, times: Seq<Instant>)
    ensures
        ({
            let after = failed_at(PersistenceState::changed(start), times);
            &&& after.dirty
            &&& after.retry_delay.nanos == if vstd::arithmetic::power2::pow2(times.len()) * RETRY_INITIAL_NANOS
                < RETRY_MAX_NANOS {
                vstd::arithmetic::power2::pow2(times.len()) * RETRY_INITIAL_NANOS
            } else {
                RETRY_MAX_NANOS as int
            }
        }),
    decreases times.len(),
{
    if times.len() == 0 {
        vstd::arithmetic::power2::lemma2_to64();
    } else {
        let n = (times.len() - 1) as nat;
        law_backoff_is_bounded(start, times.drop_last());
        vstd::arithmetic::power2::lemma_pow2_unfold(times.len());
        assert(vstd::arithmetic::power2::pow2(times.len()) * RETRY_INITIAL_NANOS == 2 * (vstd::arithmetic::power2::pow2(n) * RETRY_INITIAL_NANOS))
            by (nonlinear_arith)
            requires
                vstd::arithmetic::power2::pow2(times.len()) == 2 * vstd::arithmetic::power2::pow2(n),
        ;
    }
}

/// A window whose place or size changed.
#[derive(Clone, Copy, Debug, PartialEq, Eq, Structural)]
pub struct GeometryChange {
    /// The window is not laid out, so where it is need not be saved.
    pub unmanaged: bool,
}

/// What was taken off some window, strip or display in a frame.
#[derive(Clone, Copy, Debug, PartialEq, Eq, Structural)]
pub struct Removals {
    pub strips: bool,
    pub positions: bool,
    pub bounds: bool,
    pub widths: bool,
    pub parents: bool,
    pub displays: bool,
    pub active_workspaces: bool,
    pub active_displays: bool,
}

/// What changed in a frame.
#[derive(Debug)]
pub struct StateChanges {
    pub config: bool,
    /// A strip, a display, or which of them is active.
    pub structure: bool,
    /// The display that a strip is on.
    pub strip_parents: bool,
    pub geometry: Vec<GeometryChange>,
    pub removed: Removals,
}

impl StateChanges {
    /// Something that is saved changed, or a window goes by another name.
    pub open spec fn matter(self, events: Seq<Event>) -> bool {
        ||| self.config
        ||| self.structure
        ||| self.strip_parents
        ||| exists|i: int| 0 <= i < self.geometry.len() && !(#[trigger] self.geometry[i]).unmanaged
        ||| self.removed.strips || self.removed.positions || self.removed.bounds
        ||| self.removed.widths || self.removed.parents || self.removed.displays
        ||| self.removed.active_workspaces || self.removed.active_displays
        ||| exists|i: int| 0 <= i < events.len() && #[trigger] events[i] is WindowTitleChanged
    }
}

/// Whether the place or size of a window that is laid out changed.
fn managed_geometry_changed(changes: &Vec<GeometryChange>) -> (changed: bool)
    ensures
        changed == exists|i: int| 0 <= i < changes.len() && !(#[trigger] changes[i]).unmanaged,
{
    let mut i: usize = 0;
    while i < changes.len()
        invariant
            i <= changes.len(),
            forall|j: int| 0 <= j < i ==> (#[trigger] changes[j]).unmanaged,
        decreases changes.len() - i,
    {
        if !changes[i].unmanaged {
            return true;
        }
        i = i + 1;
    }
    false
}

/// Whether some window has a new title.
fn identity_changed(events: &Vec<Event>) -> (changed: bool)
    ensures
        changed == exists|i: int|
            0 <= i < events.len() && #[trigger] events[i] is WindowTitleChanged,
{
    let mut i: usize = 0;
    while i < events.len()
        invariant
            i <= events.len(),
            forall|j: int| 0 <= j < i ==> !(#[trigger] events[j] is WindowTitleChanged),
        decreases events.len() - i,
    {
        if let Event::WindowTitleChanged { .. } = &events[i] {
            return true;
        }
        i = i + 1;
    }
    false
}

/// Notes what changed in a frame. Without saving nothing is kept for it.
pub fn track_dirty_state(
    enabled: bool,
    changes: &StateChanges,
    events: &Vec<Event>,
    now: Instant,
    state: &mut PersistenceState,
)
    requires
        enabled ==> now.nanos + SAVE_DEBOUNCE_NANOS <= u64::MAX,
    ensures
        *final(state) == old(state).noted(enabled, changes.matter(events@), now),
{
    let r = &changes.removed;
    let removed = r.strips || r.positions || r.bounds || r.widths || r.parents || r.displays
        || r.active_workspaces || r.active_displays;
    let identity = identity_changed(events);
    if !enabled {
        state.mark_changed(false, now);
    } else if changes.config || changes.structure || changes.strip_parents
        || managed_geometry_changed(&changes.geometry) || removed || identity {
        state.mark_changed(true, now);
    }
}

/// The state that is to be restored: what the store holds, which is not even
/// asked where saving is disabled.
pub fn load_restore_state<S, F: FnOnce() -> Option<S>>(enabled: bool, store: Option<F>) -> (state:
    Option<S>)
    requires
        enabled && store is Some ==> call_requires(store->0, ()),
    ensures
        !enabled || store is None ==> state is None,
        enabled && store is Some ==> call_ensures(store->0, (), state),
{
    if !enabled {
        return None;
    }
    match store {
        Some(load) => load(),
        None => None,
    }
}

/// What becomes of the state when a save is tried.
pub open spec fn flushed<F: FnOnce() -> bool>(
    before: PersistenceState,
    store: Option<F>,
    now: Instant,
    after: PersistenceState,
) -> bool {
    match store {
        None => after == before.failed(now),
        Some(save) => {
            ||| call_ensures(save, (), true) && after == PersistenceState::clean()
            ||| call_ensures(save, (), false) && after == before.failed(now)
        },
    }
}

/// Tries to save. `store` writes the state and says whether that worked; a
/// missing store counts as a failure.
fn save_snapshot<F: FnOnce() -> bool>(store: Option<F>, state: &mut PersistenceState, now: Instant)
    requires
        old(state).can_fail(now),
        store is Some ==> call_requires(store->0, ()),
    ensures
        flushed(*old(state), store, now, *final(state)),
{
    match store {
        None => state.save_failed(now),
        Some(save) => {
            if save() {
                state.saved();
            } else {
                state.save_failed(now);
            }
        },
    }
}

/// Saves what is due. The store is not touched before that, nor where saving is
/// disabled.
pub fn flush_due_state<F: FnOnce() -> bool>(
    enabled: bool,
    store: Option<F>,
    state: &mut PersistenceState,
    now: Instant,
)
    requires
        old(state).can_fail(now),
        enabled && old(state).is_due(now) && store is Some ==> call_requires(store->0, ()),
    ensures
        if old(state).is_flushed(enabled, now) {
            flushed(*old(state), store, now, *final(state))
        } else {
            *final(state) == *old(state)
        },
{
    if !enabled || !state.due(now) {
        return ;
    }
    save_snapshot(store, state, now);
}

/// Saves on the way out, due or not, if there is anything to save.
pub fn flush_on_exit<F: FnOnce() -> bool>(
    exiting: bool,
    enabled: bool,
    store: Option<F>,
    state: &mut PersistenceState,
    now: Instant,
)
    requires
        old(state).can_fail(now),
        exiting && enabled && old(state).dirty && store is Some ==> call_requires(store->0, ()),
    ensures
        if old(state).is_flushed_on_exit(exiting, enabled) {
            flushed(*old(state), store, now, *final(state))
        } else {
            *final(state) == *old(state)
        },
{
    if !exiting || !enabled || !state.is_dirty() {
        return ;
    }
    save_snapshot(store, state, now);
}

/// Each change puts the save off: after the last of them nothing is due for the
/// whole pause, whatever was due before, and it is due once that is over.
pub proof fn law_changes_put_the_save_off(last: Instant, now: Instant)
    requires
        last.nanos + SAVE_DEBOUNCE_NANOS <= u64::MAX,
    ensures
        PersistenceState::changed(last).is_due(now) <==> now.nanos >= last.nanos
            + SAVE_DEBOUNCE_NANOS,
{
}

} // verus!
