//! How long the event loop sleeps, and which events it hands on when it wakes.
use std::collections::VecDeque;
use vstd::prelude::*;

use crate::clock::{Duration, Instant};
use crate::events::Event;
use crate::observation::ObserverDetachRetry;
use crate::persistence::PersistenceState;
use crate::search;

verus! {

/// How long a frame lasts while something moves.
pub const ACTIVE_FRAME_NANOS: u64 = 16_000_000;

/// How often something new is looked at until it is ready.
pub const FRESH_POLL_NANOS: u64 = 50_000_000;

/// How often strips without a display are looked at.
pub const ORPHAN_RECONCILE_NANOS: u64 = 1_000_000_000;

/// How often a window to focus is looked for.
pub const FOCUS_RECOVERY_NANOS: u64 = 1_000_000_000;

/// When something new is looked at again.
#[derive(Clone, Copy, Debug, PartialEq, Eq, Structural)]
pub struct FreshPollDeadline {
    pub at: Instant,
}

/// The time of a deadline has come.
pub open spec fn has_come(at: Instant, now: Instant) -> bool {
    now.nanos >= at.nanos
}

/// An instant is so much later than another.
pub open spec fn is_after(at: Instant, now: Instant, nanos: u64) -> bool {
    at.nanos == now.nanos + nanos
}

impl FreshPollDeadline {
    /// Due at once.
    pub fn new(now: Instant) -> (deadline: Self)
        ensures
            deadline.at == now,
    {
        FreshPollDeadline { at: now }
    }

    pub fn due(&self, now: Instant) -> (due: bool)
        ensures
            due == has_come(self.at, now),
    {
        now.nanos >= self.at.nanos
    }

    pub fn schedule_next(&mut self, now: Instant)
        requires
            now.nanos + FRESH_POLL_NANOS <= u64::MAX,
        ensures
            is_after(final(self).at, now, FRESH_POLL_NANOS),
    {
        self.at = now.plus(Duration { nanos: FRESH_POLL_NANOS });
    }

    pub fn next_deadline(&self) -> (deadline: Instant)
        ensures
            deadline == self.at,
    {
        self.at
    }
}

/// When a strip without a display is looked at again.
#[derive(Clone, Copy, Debug, PartialEq, Eq, Structural)]
pub struct OrphanReconcileDeadline {
    pub at: Instant,
}

impl OrphanReconcileDeadline {
    /// Due after a pause.
    pub fn new(now: Instant) -> (deadline: Self)
        requires
            now.nanos + ORPHAN_RECONCILE_NANOS <= u64::MAX,
        ensures
            is_after(deadline.at, now, ORPHAN_RECONCILE_NANOS),
    {
        OrphanReconcileDeadline { at: now.plus(Duration { nanos: ORPHAN_RECONCILE_NANOS }) }
    }

    pub fn due(&self, now: Instant) -> (due: bool)
        ensures
            due == has_come(self.at, now),
    {
        now.nanos >= self.at.nanos
    }

    pub fn schedule_next(&mut self, now: Instant)
        requires
            now.nanos + ORPHAN_RECONCILE_NANOS <= u64::MAX,
        ensures
            is_after(final(self).at, now, ORPHAN_RECONCILE_NANOS),
    {
        self.at = now.plus(Duration { nanos: ORPHAN_RECONCILE_NANOS });
    }

    pub fn next_deadline(&self) -> (deadline: Instant)
        ensures
            deadline == self.at,
    {
        self.at
    }
}

/// When a window to focus is looked for again.
#[derive(Clone, Copy, Debug, PartialEq, Eq, Structural)]
pub struct FocusRecoveryDeadline {
    pub at: Instant,
}

impl FocusRecoveryDeadline {
    /// Due at once.
    pub fn new(now: Instant) -> (deadline: Self)
        ensures
            deadline.at == now,
    {
        FocusRecoveryDeadline { at: now }
    }

    pub fn due(&self, now: Instant) -> (due: bool)
        ensures
            due == has_come(self.at, now),
    {
        now.nanos >= self.at.nanos
    }

    pub fn schedule_next(&mut self, now: Instant)
        requires
            now.nanos + FOCUS_RECOVERY_NANOS <= u64::MAX,
        ensures
            is_after(final(self).at, now, FOCUS_RECOVERY_NANOS),
    {
        self.at = now.plus(Duration { nanos: FOCUS_RECOVERY_NANOS });
    }

    pub fn next_deadline(&self) -> (deadline: Instant)
        ensures
            deadline == self.at,
    {
        self.at
    }
}

/// Whether a message was produced after the events were read. The next round
/// then does not sleep, so that the message reaches its readers without an
/// unrelated event to wake it.
#[derive(Clone, Copy, Debug, PartialEq, Eq, Structural)]
pub struct SyntheticEventPending(pub bool);

impl Default for SyntheticEventPending {
    fn default() -> (pending: Self)
        ensures
            pending == SyntheticEventPending(false),
    {
        SyntheticEventPending(false)
    }
}

impl SyntheticEventPending {
    pub fn mark(&mut self)
        ensures
            final(self).0,
    {
        self.0 = true;
    }

    /// Whether a message is pending; it then no longer is.
    pub fn take(&mut self) -> (pending: bool)
        ensures
            pending == old(self).0,
            !final(self).0,
    {
        let pending = self.0;
        self.0 = false;
        pending
    }
}

/// What the event loop has ahead of it.
#[derive(Clone, Copy, Debug, PartialEq, Eq, Structural)]
pub struct RuntimeActivity {
    /// Something moves, so each frame counts.
    pub frame_work: bool,
    pub nearest_deadline: Option<Instant>,
}

/// `found` is the earliest of the instants that satisfy `p`.
pub open spec fn is_earliest(p: spec_fn(Instant) -> bool, found: Option<Instant>) -> bool {
    match found {
        Some(first) => p(first) && forall|other: Instant| #[trigger]
            p(other) ==> first.nanos <= other.nanos,
        None => forall|other: Instant| !#[trigger] p(other),
    }
}

/// The instants of a list.
pub open spec fn listed(deadlines: Seq<Option<Instant>>) -> spec_fn(Instant) -> bool {
    |instant: Instant| deadlines.contains(Some(instant))
}

impl RuntimeActivity {
    /// How long to sleep: no longer than a frame while something moves, else
    /// until the nearest deadline, and without one until an event comes.
    pub open spec fn spec_wait(self, now: Instant) -> Option<Duration> {
        if self.frame_work {
            Some(Duration { nanos: ACTIVE_FRAME_NANOS })
        } else {
            match self.nearest_deadline {
                Some(deadline) => Some(Duration { nanos: deadline.spec_since(now) as u64 }),
                None => None,
            }
        }
    }

    pub fn wait(self, now: Instant) -> (wait: Option<Duration>)
        ensures
            wait == self.spec_wait(now),
    {
        if self.frame_work {
            Some(Duration { nanos: ACTIVE_FRAME_NANOS })
        } else {
            match self.nearest_deadline {
                Some(deadline) => Some(deadline.since(now)),
                None => None,
            }
        }
    }

    /// The earliest of some deadlines.
    pub fn nearest(deadlines: &Vec<Option<Instant>>) -> (nearest: Option<Instant>)
        ensures
            is_earliest(listed(deadlines@), nearest),
    {
        let mut nearest: Option<Instant> = None;
        let mut i: usize = 0;
        while i < deadlines.len()
            invariant
                i <= deadlines.len(),
                is_earliest(listed(deadlines@.take(i as int)), nearest),
            decreases deadlines.len() - i,
        {
            let ghost before = nearest;
            let ghost p = listed(deadlines@.take(i as int));
            let ghost q = listed(deadlines@.take(i + 1));
            nearest = sooner(nearest, deadlines[i]);
            proof {
                let d = deadlines@[i as int];
                let whole = deadlines@.take(i + 1);
                assert(whole == deadlines@.take(i as int).push(d));
                assert forall|x: Instant| #[trigger] q(x) <==> p(x) || d == Some(x) by {
                    if p(x) {
                        let j = deadlines@.take(i as int).index_of(Some(x));
                        assert(whole[j] == Some(x));
                    }
                    if d == Some(x) {
                        assert(whole[i as int] == Some(x));
                    }
                    if q(x) {
                        let j = whole.index_of(Some(x));
                        if j < i {
                            assert(deadlines@.take(i as int)[j] == Some(x));
                        }
                    }
                }
                lemma_sooner(p, d, q, before, nearest);
            }
            i = i + 1;
        }
        assert(deadlines@.take(i as int) == deadlines@);
        nearest
    }
}

/// The earlier of two instants that may be missing.
pub open spec fn spec_sooner(a: Option<Instant>, b: Option<Instant>) -> Option<Instant> {
    match (a, b) {
        (Some(x), Some(y)) => if y.nanos < x.nanos {
            b
        } else {
            a
        },
        (None, _) => b,
        (_, None) => a,
    }
}

fn sooner(a: Option<Instant>, b: Option<Instant>) -> (first: Option<Instant>)
    ensures
        first == spec_sooner(a, b),
{
    match (a, b) {
        (Some(x), Some(y)) => if y.nanos < x.nanos {
            b
        } else {
            a
        },
        (None, _) => b,
        (_, None) => a,
    }
}

/// The earlier of the earliest and one more is the earliest of them all.
proof fn lemma_sooner(
    p: spec_fn(Instant) -> bool,
    more: Option<Instant>,
    q: spec_fn(Instant) -> bool,
    before: Option<Instant>,
    after: Option<Instant>,
)
    requires
        is_earliest(p, before),
        forall|x: Instant| #[trigger] q(x) <==> p(x) || more == Some(x),
        after == spec_sooner(before, more),
    ensures
        is_earliest(q, after),
{
    if more is Some {
        assert(q(more->0));
    }
    if before is Some {
        assert(q(before->0));
    }
}

/// A list of deadlines, each with whether it counts.
pub open spec fn counting(deadlines: Seq<(Instant, bool)>) -> spec_fn(Instant) -> bool {
    |instant: Instant| deadlines.contains((instant, true))
}

/// The earliest of the deadlines that count.
fn earliest(deadlines: &Vec<(Instant, bool)>) -> (first: Option<Instant>)
    ensures
        is_earliest(counting(deadlines@), first),
{
    let mut flat: Vec<Option<Instant>> = Vec::new();
    let mut i: usize = 0;
    while i < deadlines.len()
        invariant
            i <= deadlines.len(),
            flat.len() == i,
            forall|j: int|
                0 <= j < i ==> #[trigger] flat@[j] == if deadlines@[j].1 {
                    Some(deadlines@[j].0)
                } else {
                    None
                },
        decreases deadlines.len() - i,
    {
        let (deadline, counts) = deadlines[i];
        flat.push(
            if counts {
                Some(deadline)
            } else {
                None
            },
        );
        i = i + 1;
    }
    let first = RuntimeActivity::nearest(&flat);
    proof {
        let p = listed(flat@);
        let q = counting(deadlines@);
        assert forall|x: Instant| #[trigger] q(x) <==> p(x) by {
            if q(x) {
                let j = deadlines@.index_of((x, true));
                assert(flat@[j] == Some(x));
            }
            if p(x) {
                let j = flat@.index_of(Some(x));
                assert(flat@[j] == Some(x));
                assert(deadlines@[j] == (x, true));
            }
        }
        if first is Some {
            assert(q(first->0));
        }
    }
    first
}

/// What there is to do, and until when: the things that move, and the deadlines
/// of those that wait. Where only some deadlines of a kind count, each comes
/// with whether it does.
#[derive(Debug)]
pub struct RuntimeWork {
    /// Some window is on its way to another place.
    pub repositioning: bool,
    /// Some window is on its way to another size.
    pub resizing: bool,
    /// Some strip is being scrolled.
    pub scrolling: bool,
    /// Some message is shown for a moment.
    pub flash_messages: bool,
    pub timeouts: Vec<Instant>,
    /// Polls of things, which count while those are new.
    pub fresh_polls: Vec<(FreshPollDeadline, bool)>,
    /// Size refreshes of workspaces, which count for the active ones.
    pub refreshes: Vec<(Instant, bool)>,
    pub observer_detaches: Vec<ObserverDetachRetry>,
    /// Checks of strips, which count for those without a display.
    pub orphan_checks: Vec<(OrphanReconcileDeadline, bool)>,
    /// There is a window.
    pub windows: bool,
    /// There is a window in focus.
    pub focused_windows: bool,
    pub focus_recovery: Option<FocusRecoveryDeadline>,
    pub retries: Vec<Instant>,
    pub verifications: Vec<Instant>,
    /// The start-up is not over.
    pub initializing: bool,
    pub restore: Option<Instant>,
    pub persistence: Option<PersistenceState>,
    pub updater: Option<Instant>,
}

impl RuntimeWork {
    /// Something moves.
    pub open spec fn moves(self) -> bool {
        self.repositioning || self.resizing || self.scrolling || self.flash_messages
    }

    /// `instant` is a deadline that the loop has to keep.
    pub open spec fn awaits(self, now: Instant, instant: Instant) -> bool {
        ||| self.timeouts@.contains(instant)
        ||| self.fresh_polls@.contains((FreshPollDeadline { at: instant }, true))
        ||| self.refreshes@.contains((instant, true))
        ||| exists|i: int|
            0 <= i < self.observer_detaches.len() && (
            #[trigger] self.observer_detaches[i]).deadline == instant
        ||| self.orphan_checks@.contains((OrphanReconcileDeadline { at: instant }, true))
        ||| self.windows && !self.focused_windows && self.focus_recovery == Some(
            FocusRecoveryDeadline { at: instant },
        )
        ||| self.retries@.contains(instant)
        ||| self.verifications@.contains(instant)
        ||| self.restore == Some(instant)
        ||| self.persistence is Some && self.persistence->0.save_at == Some(instant)
        ||| self.updater == Some(instant)
        ||| self.initializing && instant.nanos == now.nanos + ACTIVE_FRAME_NANOS
    }

    /// The deadlines that the loop has to keep.
    pub open spec fn awaited(self, now: Instant) -> spec_fn(Instant) -> bool {
        |instant: Instant| self.awaits(now, instant)
    }
}

/// The instants in a list.
pub open spec fn among(instants: Seq<Instant>) -> spec_fn(Instant) -> bool {
    |instant: Instant| instants.contains(instant)
}

/// The earliest of a list of instants.
fn first_of(instants: &Vec<Instant>) -> (first: Option<Instant>)
    ensures
        is_earliest(among(instants@), first),
{
    let mut flat: Vec<Option<Instant>> = Vec::new();
    let mut i: usize = 0;
    while i < instants.len()
        invariant
            i <= instants.len(),
            flat.len() == i,
            forall|j: int| 0 <= j < i ==> #[trigger] flat@[j] == Some(instants@[j]),
        decreases instants.len() - i,
    {
        flat.push(Some(instants[i]));
        i = i + 1;
    }
    let first = RuntimeActivity::nearest(&flat);
    proof {
        let p = listed(flat@);
        let q = among(instants@);
        assert forall|x: Instant| #[trigger] q(x) <==> p(x) by {
            if q(x) {
                let j = instants@.index_of(x);
                assert(flat@[j] == Some(x));
            }
            if p(x) {
                let j = flat@.index_of(Some(x));
                assert(flat@[j] == Some(x));
                assert(instants@[j] == x);
            }
        }
        if first is Some {
            assert(q(first->0));
        }
    }
    first
}

/// The deadlines of the polls.
fn poll_deadlines(polls: &Vec<(FreshPollDeadline, bool)>) -> (deadlines: Vec<(Instant, bool)>)
    ensures
        deadlines.len() == polls.len(),
        forall|j: int|
            0 <= j < polls.len() ==> #[trigger] deadlines@[j] == (polls@[j].0.at, polls@[j].1),
{
    let mut deadlines: Vec<(Instant, bool)> = Vec::new();
    let mut i: usize = 0;
    while i < polls.len()
        invariant
            i <= polls.len(),
            deadlines.len() == i,
            forall|j: int|
                0 <= j < i ==> #[trigger] deadlines@[j] == (polls@[j].0.at, polls@[j].1),
        decreases polls.len() - i,
    {
        deadlines.push((polls[i].0.next_deadline(), polls[i].1));
        i = i + 1;
    }
    deadlines
}

/// The deadlines of the checks.
fn check_deadlines(checks: &Vec<(OrphanReconcileDeadline, bool)>) -> (deadlines: Vec<
    (Instant, bool),
>)
    ensures
        deadlines.len() == checks.len(),
        forall|j: int|
            0 <= j < checks.len() ==> #[trigger] deadlines@[j] == (checks@[j].0.at, checks@[j].1),
{
    let mut deadlines: Vec<(Instant, bool)> = Vec::new();
    let mut i: usize = 0;
    while i < checks.len()
        invariant
            i <= checks.len(),
            deadlines.len() == i,
            forall|j: int|
                0 <= j < i ==> #[trigger] deadlines@[j] == (checks@[j].0.at, checks@[j].1),
        decreases checks.len() - i,
    {
        deadlines.push((checks[i].0.next_deadline(), checks[i].1));
        i = i + 1;
    }
    deadlines
}

/// The deadlines of the observers that are to come off.
fn detach_deadlines(retries: &Vec<ObserverDetachRetry>) -> (deadlines: Vec<Instant>)
    ensures
        deadlines.len() == retries.len(),
        forall|j: int| 0 <= j < retries.len() ==> #[trigger] deadlines@[j] == retries@[j].deadline,
{
    let mut deadlines: Vec<Instant> = Vec::new();
    let mut i: usize = 0;
    while i < retries.len()
        invariant
            i <= retries.len(),
            deadlines.len() == i,
            forall|j: int| 0 <= j < i ==> #[trigger] deadlines@[j] == retries@[j].deadline,
        decreases retries.len() - i,
    {
        deadlines.push(retries[i].next_deadline());
        i = i + 1;
    }
    deadlines
}

/// What the event loop has ahead of it: whether something moves, and the
/// earliest deadline that it has to keep.
pub fn runtime_activity(work: &RuntimeWork, now: Instant) -> (activity: RuntimeActivity)
    requires
        work.initializing ==> now.nanos + ACTIVE_FRAME_NANOS <= u64::MAX,
    ensures
        activity.frame_work == work.moves(),
        is_earliest(work.awaited(now), activity.nearest_deadline),
{
    let polls = poll_deadlines(&work.fresh_polls);
    let detaches = detach_deadlines(&work.observer_detaches);
    let checks = check_deadlines(&work.orphan_checks);
    let timeout_deadline = first_of(&work.timeouts);
    let fresh_poll_deadline = earliest(&polls);
    let refresh_deadline = earliest(&work.refreshes);
    let observer_detach_deadline = first_of(&detaches);
    let orphan_deadline = earliest(&checks);
    let focus_recovery_deadline = if work.windows && !work.focused_windows {
        match &work.focus_recovery {
            Some(deadline) => Some(deadline.next_deadline()),
            None => None,
        }
    } else {
        None
    };
    let retry_deadline = first_of(&work.retries);
    let verification_deadline = first_of(&work.verifications);
    let persistence_deadline = match &work.persistence {
        Some(state) => state.next_deadline(),
        None => None,
    };
    let immediate_deferred = if work.initializing {
        Some(now.plus(Duration { nanos: ACTIVE_FRAME_NANOS }))
    } else {
        None
    };
    let deadlines: Vec<Option<Instant>> = vec![
        timeout_deadline,
        fresh_poll_deadline,
        refresh_deadline,
        observer_detach_deadline,
        orphan_deadline,
        focus_recovery_deadline,
        retry_deadline,
        verification_deadline,
        work.restore,
        persistence_deadline,
        work.updater,
        immediate_deferred,
    ];
    let nearest_deadline = RuntimeActivity::nearest(&deadlines);
    proof {
        assert forall|x: Instant|
            counting(polls@)(x) == work.fresh_polls@.contains((FreshPollDeadline { at: x }, true)) by {
            if counting(polls@)(x) {
                let j = polls@.index_of((x, true));
                assert(work.fresh_polls@[j] == (FreshPollDeadline { at: x }, true));
            }
            if work.fresh_polls@.contains((FreshPollDeadline { at: x }, true)) {
                let j = work.fresh_polls@.index_of((FreshPollDeadline { at: x }, true));
                assert(polls@[j] == (x, true));
            }
        }
        assert forall|x: Instant|
            counting(checks@)(x) == work.orphan_checks@.contains(
                (OrphanReconcileDeadline { at: x }, true),
            ) by {
            if counting(checks@)(x) {
                let j = checks@.index_of((x, true));
                assert(work.orphan_checks@[j] == (OrphanReconcileDeadline { at: x }, true));
            }
            if work.orphan_checks@.contains((OrphanReconcileDeadline { at: x }, true)) {
                let j = work.orphan_checks@.index_of((OrphanReconcileDeadline { at: x }, true));
                assert(checks@[j] == (x, true));
            }
        }
        assert forall|x: Instant| #[trigger] among(detaches@)(x) <==> exists|i: int|
            0 <= i < work.observer_detaches.len() && (
            #[trigger] work.observer_detaches[i]).deadline == x by {
            if among(detaches@)(x) {
                let j = detaches@.index_of(x);
                assert(work.observer_detaches[j].deadline == x);
            }
            if exists|i: int|
                0 <= i < work.observer_detaches.len() && (
                #[trigger] work.observer_detaches[i]).deadline == x {
                let j = choose|i: int|
                    0 <= i < work.observer_detaches.len() && (
                    #[trigger] work.observer_detaches[i]).deadline == x;
                assert(detaches@[j] == x);
            }
        }
        lemma_earliest_of_all(*work, now, deadlines@, polls@, detaches@, checks@, nearest_deadline);
    }
    RuntimeActivity {
        frame_work: work.repositioning || work.resizing || work.scrolling || work.flash_messages,
        nearest_deadline,
    }
}

/// The earliest of the earliest of each kind is the earliest of them all.
proof fn lemma_earliest_of_all(
    work: RuntimeWork,
    now: Instant,
    deadlines: Seq<Option<Instant>>,
    polls: Seq<(Instant, bool)>,
    detaches: Seq<Instant>,
    checks: Seq<(Instant, bool)>,
    nearest: Option<Instant>,
)
    requires
        is_earliest(listed(deadlines), nearest),
        deadlines.len() == 12,
        forall|x: Instant| #[trigger]
            counting(polls)(x) == work.fresh_polls@.contains((FreshPollDeadline { at: x }, true)),
        forall|x: Instant| #[trigger]
            counting(checks)(x) == work.orphan_checks@.contains(
                (OrphanReconcileDeadline { at: x }, true),
            ),
        forall|x: Instant| #[trigger]
            among(detaches)(x) <==> exists|i: int|
                0 <= i < work.observer_detaches.len() && (
                #[trigger] work.observer_detaches[i]).deadline == x,
        is_earliest(among(work.timeouts@), deadlines[0]),
        is_earliest(counting(polls), deadlines[1]),
        is_earliest(counting(work.refreshes@), deadlines[2]),
        is_earliest(among(detaches), deadlines[3]),
        is_earliest(counting(checks), deadlines[4]),
        deadlines[5] == if work.windows && !work.focused_windows && work.focus_recovery is Some {
            Some(work.focus_recovery->0.at)
        } else {
            None
        },
        is_earliest(among(work.retries@), deadlines[6]),
        is_earliest(among(work.verifications@), deadlines[7]),
        deadlines[8] == work.restore,
        deadlines[9] == if work.persistence is Some {
            work.persistence->0.save_at
        } else {
            None
        },
        deadlines[10] == work.updater,
        deadlines[11] is Some == work.initializing,
        work.initializing ==> deadlines[11]->0.nanos == now.nanos + ACTIVE_FRAME_NANOS,
    ensures
        is_earliest(work.awaited(now), nearest),
{
    let p = listed(deadlines);
    let q = work.awaited(now);
    assert forall|x: Instant| #[trigger] q(x) implies exists|y: Instant| #[trigger]
        p(y) && y.nanos <= x.nanos by {
        let k: int = if work.timeouts@.contains(x) {
            assert(among(work.timeouts@)(x));
            0
        } else if work.fresh_polls@.contains((FreshPollDeadline { at: x }, true)) {
            assert(counting(polls)(x));
            1
        } else if work.refreshes@.contains((x, true)) {
            assert(counting(work.refreshes@)(x));
            2
        } else if among(detaches)(x) {
            3
        } else if work.orphan_checks@.contains((OrphanReconcileDeadline { at: x }, true)) {
            assert(counting(checks)(x));
            4
        } else if deadlines[5] == Some(x) {
            5
        } else if work.retries@.contains(x) {
            assert(among(work.retries@)(x));
            6
        } else if work.verifications@.contains(x) {
            assert(among(work.verifications@)(x));
            7
        } else if work.restore == Some(x) {
            8
        } else if deadlines[9] == Some(x) {
            9
        } else if work.updater == Some(x) {
            10
        } else {
            11
        };
        assert(deadlines[k] is Some && deadlines[k]->0.nanos <= x.nanos);
        let y = deadlines[k]->0;
        assert(deadlines[k] == Some(y));
        assert(p(y));
    }
    assert forall|x: Instant| #[trigger] p(x) implies q(x) by {
        let k = deadlines.index_of(Some(x));
        assert(deadlines[k] == Some(x));
        if k == 0 {
            assert(among(work.timeouts@)(x));
        } else if k == 1 {
            assert(counting(polls)(x));
        } else if k == 2 {
            assert(counting(work.refreshes@)(x));
        } else if k == 3 {
            assert(among(detaches)(x));
        } else if k == 4 {
            assert(counting(checks)(x));
        } else if k == 6 {
            assert(among(work.retries@)(x));
        } else if k == 7 {
            assert(among(work.verifications@)(x));
        }
        assert(work.awaits(now, x));
    }
    if nearest is Some {
        assert(p(nearest->0));
        assert(q(nearest->0));
    }
}

/// An idle loop has no periodic deadline: it sleeps until an event comes just
/// where nothing moves and nothing is awaited.
pub proof fn law_idle_runtime_sleeps(work: RuntimeWork, now: Instant, activity: RuntimeActivity)
    requires
        activity.frame_work == work.moves(),
        is_earliest(work.awaited(now), activity.nearest_deadline),
    ensures
        activity.spec_wait(now) is None <==> !work.moves() && forall|x: Instant|
            !#[trigger] work.awaits(now, x),
{
    let q = work.awaited(now);
    if activity.nearest_deadline is None {
        assert forall|x: Instant| !#[trigger] work.awaits(now, x) by {
            assert(!q(x));
        }
    } else {
        assert(q(activity.nearest_deadline->0));
    }
}

/// No deadline is slept through: where nothing moves, the loop wakes by the time
/// of each deadline that is still ahead, and at once for one that has passed.
pub proof fn law_no_deadline_is_slept_through(
    work: RuntimeWork,
    now: Instant,
    activity: RuntimeActivity,
    deadline: Instant,
)
    requires
        activity.frame_work == work.moves(),
        is_earliest(work.awaited(now), activity.nearest_deadline),
        work.awaits(now, deadline),
        !work.moves(),
    ensures
        activity.spec_wait(now) is Some,
        activity.spec_wait(now)->0.nanos <= deadline.spec_since(now),
{
    let q = work.awaited(now);
    assert(q(deadline));
}

/// What comes out of the channel of events.
#[derive(Debug)]
pub enum Received {
    Event(Event),
    /// Nothing more for now.
    Empty,
    /// Nobody can send any more.
    Disconnected,
}

/// After this nothing more is read.
pub open spec fn ends_reading() -> spec_fn(Received) -> bool {
    |received: Received| !(received is Event) || received->Event_0 is Exit
}

/// The events that are read: those before the first that ends the reading.
pub open spec fn read_events(queue: Seq<Received>) -> Seq<Event> {
    let end = match search::first_index(queue, ends_reading()) {
        Some(end) => end,
        None => queue.len() as int,
    };
    Seq::new(end as nat, |i: int| queue[i]->Event_0)
}

/// The reading ends because the application is to exit, or nobody is left.
pub open spec fn ends_in_exit(queue: Seq<Received>) -> bool {
    match search::first_index(queue, ends_reading()) {
        Some(end) => !(queue[end] is Empty),
        None => false,
    }
}

/// What stays in the channel: what follows the first that ends the reading.
pub open spec fn unread(queue: Seq<Received>) -> Seq<Received> {
    match search::first_index(queue, ends_reading()) {
        Some(end) => queue.skip(end + 1),
        None => Seq::empty(),
    }
}

/// Events of which only the last of each run of mouse moves is left.
pub open spec fn coalesced(events: Seq<Event>) -> Seq<Event>
    decreases events.len(),
{
    if events.len() == 0 {
        events
    } else {
        let before = coalesced(events.drop_last());
        if events.last() is MouseMoved && events.len() > 1 && events[events.len() - 2]
            is MouseMoved {
            before.drop_last().push(events.last())
        } else {
            before.push(events.last())
        }
    }
}

/// An event that may be missing, as a sequence.
pub open spec fn optional(event: Option<Event>) -> Seq<Event> {
    match event {
        Some(event) => seq![event],
        None => Seq::empty(),
    }
}

/// Adding a mouse move that may be missing.
fn flush(events: &mut Vec<Event>, pending: Option<Event>)
    ensures
        final(events)@ == old(events)@ + optional(pending),
{
    if let Some(event) = pending {
        events.push(event);
    }
}

/// Reads the events that wait in the channel, and says whether to exit. Of
/// mouse moves that follow each other only the last is kept. What comes behind the
/// end of the reading stays in the channel.
pub fn drain_event_channel(queue: &mut VecDeque<Received>) -> (drained: (Vec<Event>, bool))
    ensures
        drained.0@ == coalesced(read_events(old(queue)@)),
        drained.1 == ends_in_exit(old(queue)@),
        final(queue)@ == unread(old(queue)@),
{
    let ghost all = queue@;
    let ghost p = ends_reading();
    let mut received_events: Vec<Event> = Vec::new();
    let mut pending_mouse: Option<Event> = None;
    let mut should_exit = false;
    let ghost mut i: int = 0;
    let ghost mut seen: Seq<Event> = Seq::empty();
    loop
        invariant_except_break
            0 <= i <= all.len(),
            queue@ == all.skip(i),
            !should_exit,
        invariant
            p == ends_reading(),
            0 <= i <= all.len(),
            forall|j: int| 0 <= j < i ==> !p(#[trigger] all[j]),
            seen == Seq::new(i as nat, |j: int| all[j]->Event_0),
            received_events@ + optional(pending_mouse) == coalesced(seen),
            pending_mouse is Some <==> seen.len() > 0 && seen.last() is MouseMoved,
        ensures
            i == all.len() && !should_exit && queue@ == Seq::<Received>::empty() || i < all.len()
                && p(all[i]) && should_exit == !(all[i] is Empty) && queue@ == all.skip(i + 1),
        decreases all.len() - i,
    {
        let next = queue.pop_front();
        proof {
            if i < all.len() {
                assert(all.skip(i).skip(1) =~= all.skip(i + 1));
            } else {
                assert(all.skip(i) =~= Seq::empty());
            }
        }
        match next {
            None => {
                break ;
            },
            Some(Received::Empty) => {
                break ;
            },
            Some(Received::Disconnected) => {
                should_exit = true;
                break ;
            },
            Some(Received::Event(event)) => {
                if let Event::Exit = &event {
                    should_exit = true;
                    break ;
                }
                let ghost longer = seen.push(event);
                proof {
                    assert(all[i] == Received::Event(event));
                    assert(longer.drop_last() == seen);
                }
                let ghost before = received_events@;
                if let Event::MouseMoved { .. } = &event {
                    proof {
                        assert(coalesced(longer) =~= before.push(event));
                    }
                    pending_mouse = Some(event);
                } else {
                    flush(&mut received_events, pending_mouse);
                    pending_mouse = None;
                    received_events.push(event);
                }
                proof {
                    assert(received_events@ + optional(pending_mouse) =~= coalesced(longer));
                    i = i + 1;
                    seen = longer;
                    assert(seen =~= Seq::new(i as nat, |j: int| all[j]->Event_0));
                }
            },
        }
    }
    proof {
        if i < all.len() {
            search::lemma_first_index(all, p, i);
        } else {
            search::lemma_no_first_index(all, p);
        }
        assert(read_events(all) =~= seen);
    }
    flush(&mut received_events, pending_mouse);
    (received_events, should_exit)
}

/// Events other than mouse moves.
pub open spec fn no_mouse_move() -> spec_fn(Event) -> bool {
    |event: Event| !(event is MouseMoved)
}

/// Reading loses no event but mouse moves: all others are handed on, in the
/// order in which they came.
pub proof fn law_draining_keeps_other_events(events: Seq<Event>)
    ensures
        coalesced(events).filter(no_mouse_move()) == events.filter(no_mouse_move()),
    decreases events.len(),
{
    let p = no_mouse_move();
    reveal(Seq::filter);
    if events.len() > 0 {
        let before = events.drop_last();
        law_draining_keeps_other_events(before);
        law_last_mouse_move_is_kept(before);
        let kept = coalesced(before);
        let last = events.last();
        assert(events == before.push(last));
        if last is MouseMoved && events.len() > 1 && events[events.len() - 2] is MouseMoved {
            assert(kept.drop_last().push(last).drop_last() =~= kept.drop_last());
        } else {
            assert(kept.push(last).drop_last() =~= kept);
        }
    }
}

/// The last event is handed on whatever it is, so the mouse ends up where it is.
pub proof fn law_last_mouse_move_is_kept(events: Seq<Event>)
    ensures
        events.len() > 0 ==> coalesced(events).len() > 0 && coalesced(events).last()
            == events.last(),
{
}

/// No two mouse moves are handed on one after the other.
pub proof fn law_mouse_moves_are_coalesced(events: Seq<Event>)
    ensures
        forall|i: int|
            0 <= i < coalesced(events).len() - 1 ==> !(#[trigger] coalesced(events)[i] is MouseMoved
                && coalesced(events)[i + 1] is MouseMoved),
    decreases events.len(),
{
    if events.len() > 0 {
        let before = events.drop_last();
        law_mouse_moves_are_coalesced(before);
        law_last_mouse_move_is_kept(before);
        let kept = coalesced(before);
        let after = coalesced(events);
        assert forall|i: int| 0 <= i < after.len() - 1 implies !(#[trigger] after[i] is MouseMoved
            && after[i + 1] is MouseMoved) by {
            assert(after[i] == kept[i]);
            if i + 1 < after.len() - 1 {
                assert(after[i + 1] == kept[i + 1]);
                assert(!(kept[i] is MouseMoved && kept[i + 1] is MouseMoved));
            } else if after.len() == kept.len() {
                assert(!(kept[i] is MouseMoved && kept[i + 1] is MouseMoved));
            }
        }
    }
}

/// The loop sleeps: nothing is to be handed on, and nothing came in meanwhile.
pub open spec fn sleeps(queue: Seq<Received>, quiet: bool, synthetic_pending: bool) -> bool {
    !synthetic_pending && read_events(queue).len() == 0 && !ends_in_exit(queue) && quiet
}

/// Reads the events that wait; if there are none, sleeps as long as `activity`
/// allows and reads once more. `quiet` says that nothing came in while reading;
/// `pump` sleeps and returns what is in the channel then. The result is the
/// events, whether to exit, and whether it slept.
pub fn pump_receiver<F: FnOnce(Option<Duration>) -> VecDeque<Received>>(
    queue: &mut VecDeque<Received>,
    quiet: bool,
    activity: RuntimeActivity,
    now: Instant,
    synthetic_pending: bool,
    pump: F,
) -> (outcome: (Vec<Event>, bool, bool))
    requires
        sleeps(old(queue)@, quiet, synthetic_pending) ==> call_requires(
            pump,
            (activity.spec_wait(now),),
        ),
    ensures
        outcome.2 == sleeps(old(queue)@, quiet, synthetic_pending),
        !outcome.2 ==> outcome.0@ == coalesced(read_events(old(queue)@)) && outcome.1
            == ends_in_exit(old(queue)@) && final(queue)@ == unread(old(queue)@),
        outcome.2 ==> exists|later: VecDeque<Received>| #[trigger]
            call_ensures(pump, (activity.spec_wait(now),), later) && outcome.0@ == coalesced(
                read_events(later@),
            ) && outcome.1 == ends_in_exit(later@) && final(queue)@ == unread(later@),
{
    let ghost waiting = queue@;
    let (received_events, should_exit) = drain_event_channel(queue);
    proof {
        law_last_mouse_move_is_kept(read_events(waiting));
    }
    let should_wait = !synthetic_pending && received_events.len() == 0 && !should_exit && quiet;
    if should_wait {
        *queue = pump(activity.wait(now));
        let ghost back = *queue;
        let (after_wait, exit_after_wait) = drain_event_channel(queue);
        assert(call_ensures(pump, (activity.spec_wait(now),), back));
        return (after_wait, exit_after_wait, true);
    }
    (received_events, should_exit, false)
}

} // verus!
