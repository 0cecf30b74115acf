//! When the layout is written to disk.
use std::cell::Cell;

use paneru::clock::{Duration, Instant};
use paneru::events::Event;
use paneru::persistence::{
    flush_due_state, flush_on_exit, load_restore_state, track_dirty_state, GeometryChange,
    PersistenceState, Removals, StateChanges, RETRY_INITIAL_NANOS, RETRY_MAX_NANOS,
    SAVE_DEBOUNCE_NANOS,
};

const NOW: Instant = Instant { nanos: 5_000_000_000 };
const SAVE_DEBOUNCE: Duration = Duration { nanos: SAVE_DEBOUNCE_NANOS };
const RETRY_INITIAL: Duration = Duration { nanos: RETRY_INITIAL_NANOS };

fn nothing() -> StateChanges {
    StateChanges {
        config: false,
        structure: false,
        strip_parents: false,
        geometry: Vec::new(),
        removed: Removals {
            strips: false,
            positions: false,
            bounds: false,
            widths: false,
            parents: false,
            displays: false,
            active_workspaces: false,
            active_displays: false,
        },
    }
}

fn moved(unmanaged: bool) -> StateChanges {
    let mut changes = nothing();
    changes.geometry.push(GeometryChange { unmanaged });
    changes
}

/// A store that counts.
#[derive(Default)]
struct TestStore {
    loads: Cell<usize>,
    saves: Cell<usize>,
    fail_saves: Cell<bool>,
}

impl TestStore {
    fn save(&self) -> bool {
        self.saves.set(self.saves.get() + 1);
        !self.fail_saves.get()
    }

    fn load(&self) -> Option<u32> {
        self.loads.set(self.loads.get() + 1);
        Some(7)
    }
}

/// One frame: changes are noted, what is due is saved, and all of it on the way
/// out.
fn frame(
    enabled: bool,
    changes: &StateChanges,
    events: &Vec<Event>,
    exiting: bool,
    store: Option<&TestStore>,
    state: &mut PersistenceState,
    now: Instant,
) {
    track_dirty_state(enabled, changes, events, now, state);
    flush_due_state(enabled, store.map(|store| || store.save()), state, now);
    flush_on_exit(exiting, enabled, store.map(|store| || store.save()), state, now);
}

fn make_due(state: &mut PersistenceState) {
    state.save_at = Some(Instant { nanos: NOW.nanos - 1_000_000 });
}

#[test]
fn trailing_debounce_moves_after_every_change() {
    let later = NOW.plus(Duration::from_millis(200));
    let mut state = PersistenceState::default();
    state.mark_changed(true, NOW);
    state.mark_changed(true, later);
    assert!(!state.due(NOW.plus(SAVE_DEBOUNCE)));
    assert!(state.due(later.plus(SAVE_DEBOUNCE)));
}

#[test]
fn disabled_restore_never_keeps_dirty_work() {
    let mut state = PersistenceState::default();
    state.mark_changed(true, NOW);
    state.mark_changed(false, NOW);
    assert!(!state.is_dirty());
    assert_eq!(state.next_deadline(), None);
}

#[test]
fn failed_save_stays_dirty_with_bounded_backoff() {
    let mut state = PersistenceState::default();
    state.mark_changed(true, NOW);
    state.save_failed(NOW.plus(SAVE_DEBOUNCE));
    assert!(state.is_dirty());
    assert_eq!(
        state.next_deadline(),
        Some(NOW.plus(SAVE_DEBOUNCE).plus(RETRY_INITIAL))
    );
}

#[test]
fn pauses_double_up_to_the_longest() {
    let mut state = PersistenceState::default();
    state.mark_changed(true, NOW);
    let mut pauses = Vec::new();
    for _ in 0..8 {
        state.save_failed(NOW);
        pauses.push((state.next_deadline().unwrap().nanos - NOW.nanos) / 1_000_000_000);
    }
    assert_eq!(pauses, vec![1, 2, 4, 8, 16, 32, 60, 60]);
    assert_eq!(state.retry_delay.nanos, RETRY_MAX_NANOS);
}

#[test]
fn schedule_continuous_mutation_does_not_save_until_quiet() {
    let store = TestStore::default();
    let mut state = PersistenceState::default();
    frame(true, &moved(false), &vec![], false, Some(&store), &mut state, NOW);
    make_due(&mut state);

    frame(true, &moved(false), &vec![], false, Some(&store), &mut state, NOW);
    assert_eq!(store.saves.get(), 0);

    make_due(&mut state);
    frame(true, &nothing(), &vec![], false, Some(&store), &mut state, NOW);
    assert_eq!(store.saves.get(), 1);
}

#[test]
fn passthrough_geometry_does_not_dirty_persistence() {
    let store = TestStore::default();
    let mut state = PersistenceState::default();
    frame(true, &moved(true), &vec![], false, Some(&store), &mut state, NOW);
    assert!(!state.is_dirty());
    frame(true, &moved(true), &vec![], false, Some(&store), &mut state, NOW);
    assert!(!state.is_dirty());
}

#[test]
fn schedule_same_frame_change_and_exit_flushes_latest_state() {
    let store = TestStore::default();
    let mut state = PersistenceState::default();
    frame(true, &moved(false), &vec![], true, Some(&store), &mut state, NOW);
    assert_eq!(store.saves.get(), 1);
    assert!(!state.is_dirty());
}

#[test]
fn disabled_restore_never_reads_or_writes_store() {
    let store = TestStore::default();
    let mut state = PersistenceState::default();
    assert_eq!(load_restore_state(false, Some(|| store.load())), None);
    frame(false, &moved(false), &vec![], true, Some(&store), &mut state, NOW);
    assert_eq!(store.loads.get(), 0);
    assert_eq!(store.saves.get(), 0);
}

#[test]
fn what_was_saved_is_loaded_where_saving_is_enabled() {
    let store = TestStore::default();
    assert_eq!(load_restore_state(true, Some(|| store.load())), Some(7));
    assert_eq!(store.loads.get(), 1);
}

#[test]
fn failed_due_save_is_retried_immediately_on_shutdown() {
    let store = TestStore::default();
    store.fail_saves.set(true);
    let mut state = PersistenceState::default();
    frame(true, &moved(false), &vec![], false, Some(&store), &mut state, NOW);
    make_due(&mut state);
    frame(true, &nothing(), &vec![], false, Some(&store), &mut state, NOW);
    assert_eq!(store.saves.get(), 1);
    assert!(state.is_dirty());

    store.fail_saves.set(false);
    frame(true, &nothing(), &vec![], true, Some(&store), &mut state, NOW);
    assert_eq!(store.saves.get(), 2);
    assert!(!state.is_dirty());
}

#[test]
fn expired_dirty_state_without_store_uses_backoff_instead_of_zero_wait() {
    let mut state = PersistenceState::default();
    frame(true, &moved(false), &vec![], false, None, &mut state, NOW);
    make_due(&mut state);

    frame(true, &nothing(), &vec![], false, None, &mut state, NOW);

    assert!(state.is_dirty());
    assert!(state.next_deadline().is_some_and(|deadline| deadline.nanos > NOW.nanos));
}

#[test]
fn production_title_notification_marks_restore_identity_dirty() {
    let store = TestStore::default();
    let mut state = PersistenceState::default();
    let events = vec![Event::WindowTitleChanged { window_id: 7 }];
    frame(true, &nothing(), &events, false, Some(&store), &mut state, NOW);
    assert!(state.is_dirty());
}

#[test]
fn every_removal_matters() {
    let removals: [fn(&mut Removals); 8] = [
        |r| r.strips = true,
        |r| r.positions = true,
        |r| r.bounds = true,
        |r| r.widths = true,
        |r| r.parents = true,
        |r| r.displays = true,
        |r| r.active_workspaces = true,
        |r| r.active_displays = true,
    ];
    for remove in removals {
        let mut changes = nothing();
        remove(&mut changes.removed);
        let mut state = PersistenceState::default();
        track_dirty_state(true, &changes, &vec![], NOW, &mut state);
        assert!(state.is_dirty());
    }
}
