//! Which applications are observed: the one in front, and those that own a
//! window that is laid out. What could not be detached is tried again, a
//! bounded number of times.
use vstd::prelude::*;

use crate::clock::{Duration, Instant};
use crate::events::{Event, ProcessSerialNumber};
use crate::geometry::Entity;
use crate::reconcile::contains;
use crate::search;
use crate::windowset::WinID;

verus! {

/// How long after a failure detaching is tried again.
pub const DETACH_RETRY_NANOS: u64 = 250_000_000;

/// How often detaching is tried again.
pub const DETACH_RETRY_LIMIT: u8 = 3;

/// An observer that may still be attached.
#[derive(Clone, Copy, Debug, PartialEq, Eq, Structural)]
pub struct ObserverDetachRetry {
    pub deadline: Instant,
    pub attempts: u8,
    /// Once it is detached, the application no longer counts as observed.
    pub remove_application_marker: bool,
}

impl ObserverDetachRetry {
    /// What is scheduled when detaching fails at `now`.
    pub open spec fn scheduled(remove_application_marker: bool, now: Instant) -> Self {
        ObserverDetachRetry {
            deadline: Instant { nanos: (now.nanos + DETACH_RETRY_NANOS) as u64 },
            attempts: 0,
            remove_application_marker,
        }
    }

    pub fn new(remove_application_marker: bool, now: Instant) -> (retry: Self)
        requires
            now.nanos + DETACH_RETRY_NANOS <= u64::MAX,
        ensures
            retry == ObserverDetachRetry::scheduled(remove_application_marker, now),
    {
        ObserverDetachRetry {
            deadline: now.plus(Duration { nanos: DETACH_RETRY_NANOS }),
            attempts: 0,
            remove_application_marker,
        }
    }

    pub fn next_deadline(&self) -> (deadline: Instant)
        ensures
            deadline == self.deadline,
    {
        self.deadline
    }

    pub fn due(&self, now: Instant) -> (due: bool)
        ensures
            due == (now.nanos >= self.deadline.nanos),
    {
        now.nanos >= self.deadline.nanos
    }

    /// The state after another failure at `now`.
    pub open spec fn after_failure(self, now: Instant) -> Self {
        ObserverDetachRetry {
            deadline: Instant { nanos: (now.nanos + DETACH_RETRY_NANOS) as u64 },
            attempts: (self.attempts + 1) as u8,
            ..self
        }
    }

    /// Another failure is the last one.
    pub open spec fn gives_up(self) -> bool {
        self.attempts + 1 >= DETACH_RETRY_LIMIT
    }

    /// Notes another failure, and says whether it was the last.
    pub fn failed_attempt(&mut self, now: Instant) -> (last: bool)
        requires
            old(self).attempts < u8::MAX,
            now.nanos + DETACH_RETRY_NANOS <= u64::MAX,
        ensures
            *final(self) == old(self).after_failure(now),
            last == old(self).gives_up(),
    {
        self.attempts = self.attempts + 1;
        self.deadline = now.plus(Duration { nanos: DETACH_RETRY_NANOS });
        self.attempts >= DETACH_RETRY_LIMIT
    }
}

/// The state after detaching failed at each of these times in turn.
pub open spec fn failed_at(retry: ObserverDetachRetry, times: Seq<Instant>) -> ObserverDetachRetry
    decreases times.len(),
{
    if times.len() == 0 {
        retry
    } else {
        failed_at(retry, times.drop_last()).after_failure(times.last())
    }
}

/// Detaching is tried again exactly as often as the limit says: the failure
/// after `n` earlier ones is the last just where they use up the limit.
pub proof fn law_detach_retry_is_bounded(flag: bool, start: Instant, times: Seq<Instant>)
    requires
        times.len() < DETACH_RETRY_LIMIT,
    ensures
        failed_at(ObserverDetachRetry::scheduled(flag, start), times).gives_up() <==> times.len()
            + 1 == DETACH_RETRY_LIMIT,
{
    lemma_attempts_count(flag, start, times);
}

proof fn lemma_attempts_count(flag: bool, start: Instant, times: Seq<Instant>)
    requires
        times.len() < DETACH_RETRY_LIMIT,
    ensures
        failed_at(ObserverDetachRetry::scheduled(flag, start), times).attempts == times.len(),
    decreases times.len(),
{
    if times.len() > 0 {
        lemma_attempts_count(flag, start, times.drop_last());
    }
}

/// A failure is not tried again at once: the next try is a whole pause away.
pub proof fn law_retry_does_not_spin(retry: ObserverDetachRetry, now: Instant, later: Instant)
    requires
        now.nanos + DETACH_RETRY_NANOS <= u64::MAX,
    ensures
        later.nanos >= retry.after_failure(now).deadline.nanos <==> later.nanos >= now.nanos
            + DETACH_RETRY_NANOS,
{
}

/// Whether an application is to be observed.
pub fn required(frontmost: bool, owns_managed: bool) -> (required: bool)
    ensures
        required == (frontmost || owns_managed),
{
    frontmost || owns_managed
}

/// An application and what is known of it.
#[derive(Debug)]
pub struct ApplicationEntry {
    pub entity: Entity,
    pub children: Vec<Entity>,
    pub observed: bool,
}

/// What is to be done about the observer of an application.
#[derive(Clone, Copy, Debug, PartialEq, Eq, Structural)]
pub enum ScopeAction {
    Observe(Entity),
    Unobserve(Entity),
}

/// What becomes of the mark that an application is observed.
#[derive(Clone, Copy, Debug, PartialEq, Eq, Structural)]
pub enum ScopeOutcome {
    Keep,
    Mark(Entity),
    Unmark(Entity),
    Retry(Entity, ObserverDetachRetry),
}

impl ApplicationEntry {
    /// One of the application's windows is laid out.
    pub open spec fn owns_managed(self, managed: Seq<Entity>) -> bool {
        exists|i: int| 0 <= i < self.children.len() && managed.contains(#[trigger] self.children[i])
    }

    pub open spec fn is_required(self, target: Option<Entity>, managed: Seq<Entity>) -> bool {
        target == Some(self.entity) || self.owns_managed(managed)
    }
}

/// What is to be done about one application: observe it if it is required and
/// is not observed, let it go if it is the other way round.
pub open spec fn scope_action(target: Option<Entity>, managed: Seq<Entity>) -> spec_fn(
    ApplicationEntry,
) -> Option<ScopeAction> {
    |app: ApplicationEntry|
        if app.is_required(target, managed) && !app.observed {
            Some(ScopeAction::Observe(app.entity))
        } else if !app.is_required(target, managed) && app.observed {
            Some(ScopeAction::Unobserve(app.entity))
        } else {
            None
        }
}

/// Whether one of the application's windows is laid out.
fn owns_managed(app: &ApplicationEntry, managed: &Vec<Entity>) -> (owns: bool)
    ensures
        owns == app.owns_managed(managed@),
{
    let mut i: usize = 0;
    while i < app.children.len()
        invariant
            i <= app.children.len(),
            forall|j: int| 0 <= j < i ==> !managed@.contains(#[trigger] app.children[j]),
        decreases app.children.len() - i,
    {
        if contains(managed, app.children[i]) {
            return true;
        }
        i = i + 1;
    }
    false
}

/// What is to be done when another application comes to the front, in order:
/// the applications that are required are observed, the others let go.
pub fn activate(
    applications: &Vec<ApplicationEntry>,
    managed: &Vec<Entity>,
    target: Option<Entity>,
) -> (actions: Vec<ScopeAction>)
    ensures
        actions@ == applications@.filter_map(scope_action(target, managed@)),
{
    let ghost f = scope_action(target, managed@);
    let mut actions: Vec<ScopeAction> = Vec::new();
    let mut i: usize = 0;
    while i < applications.len()
        invariant
            i <= applications.len(),
            f == scope_action(target, managed@),
            actions@ == applications@.take(i as int).filter_map(f),
        decreases applications.len() - i,
    {
        proof {
            applications@.lemma_filter_map_take_succ(f, i as int);
        }
        let app = &applications[i];
        let frontmost = match target {
            Some(entity) => entity == app.entity,
            None => false,
        };
        let needed = required(frontmost, owns_managed(app, managed));
        if needed && !app.observed {
            actions.push(ScopeAction::Observe(app.entity));
        } else if !needed && app.observed {
            actions.push(ScopeAction::Unobserve(app.entity));
        }
        i = i + 1;
    }
    proof {
        assert(applications@.take(i as int) == applications@);
    }
    actions
}

/// What follows once an action worked, or did not.
pub open spec fn outcome_of(action: ScopeAction, worked: bool, now: Instant) -> ScopeOutcome {
    match (action, worked) {
        (ScopeAction::Observe(entity), true) => ScopeOutcome::Mark(entity),
        (ScopeAction::Observe(_), false) => ScopeOutcome::Keep,
        (ScopeAction::Unobserve(entity), true) => ScopeOutcome::Unmark(entity),
        (ScopeAction::Unobserve(entity), false) => ScopeOutcome::Retry(
            entity,
            ObserverDetachRetry::scheduled(true, now),
        ),
    }
}

/// What follows from how an action went: only what worked changes the mark, and
/// an observer that did not come off is tried again.
pub fn settle(action: ScopeAction, worked: bool, now: Instant) -> (outcome: ScopeOutcome)
    requires
        now.nanos + DETACH_RETRY_NANOS <= u64::MAX,
    ensures
        outcome == outcome_of(action, worked, now),
{
    match action {
        ScopeAction::Observe(entity) => if worked {
            ScopeOutcome::Mark(entity)
        } else {
            ScopeOutcome::Keep
        },
        ScopeAction::Unobserve(entity) => if worked {
            ScopeOutcome::Unmark(entity)
        } else {
            ScopeOutcome::Retry(entity, ObserverDetachRetry::new(true, now))
        },
    }
}

/// The application after its action worked.
pub open spec fn settled(app: ApplicationEntry, target: Option<Entity>, managed: Seq<Entity>) -> bool {
    app.observed == app.is_required(target, managed)
}

/// Coming to the front twice changes nothing the second time: once the observed
/// applications are those that are required, there is nothing to do.
pub proof fn law_activation_is_idempotent(
    applications: Seq<ApplicationEntry>,
    managed: Seq<Entity>,
    target: Option<Entity>,
)
    requires
        forall|i: int|
            0 <= i < applications.len() ==> settled(#[trigger] applications[i], target, managed),
    ensures
        applications.filter_map(scope_action(target, managed)) == Seq::<ScopeAction>::empty(),
    decreases applications.len(),
{
    let f = scope_action(target, managed);
    if applications.len() == 0 {
        assert(applications.filter_map(f) =~= Seq::<ScopeAction>::empty());
    } else {
        law_activation_is_idempotent(applications.drop_last(), managed, target);
        let n = applications.len() - 1;
        applications.lemma_filter_map_take_succ(f, n);
        assert(applications.take(n) == applications.drop_last());
        assert(applications.take(n + 1) == applications);
        assert(settled(applications[n], target, managed));
    }
}

/// Observes an application that is not observed yet, and says whether it now
/// counts as observed where it did not.
pub fn ensure_application_observer<F: FnOnce() -> bool>(observed: bool, observe: F) -> (mark: bool)
    requires
        !observed ==> call_requires(observe, ()),
    ensures
        observed ==> !mark,
        !observed ==> call_ensures(observe, (), mark),
{
    if observed {
        false
    } else {
        observe()
    }
}

/// What is to be done once a window is no longer laid out.
#[derive(Clone, Copy, Debug, PartialEq, Eq, Structural)]
pub struct Detachment {
    /// The application no longer counts as observed.
    pub unmark: bool,
    pub retry: Option<ObserverDetachRetry>,
}

/// The application's own observer is to come off too: nothing needs it any more.
pub open spec fn lets_go(observed: bool, frontmost: bool, owns_other: bool) -> bool {
    observed && !frontmost && !owns_other
}

/// What follows for an application one of whose windows is no longer laid out.
/// `window_detached` says whether the window's observer came off; `unobserve`
/// takes the application's off and says whether that worked, and is only called
/// where nothing else needs it.
pub fn detach_unmanaged_window<F: FnOnce() -> bool>(
    window_detached: bool,
    observed: bool,
    frontmost: bool,
    owns_other_managed_windows: bool,
    unobserve: F,
    now: Instant,
) -> (detachment: Detachment)
    requires
        now.nanos + DETACH_RETRY_NANOS <= u64::MAX,
        lets_go(observed, frontmost, owns_other_managed_windows) ==> call_requires(unobserve, ()),
    ensures
        !lets_go(observed, frontmost, owns_other_managed_windows) ==> detachment == (Detachment {
            unmark: false,
            retry: if window_detached {
                None
            } else {
                Some(ObserverDetachRetry::scheduled(false, now))
            },
        }),
        lets_go(observed, frontmost, owns_other_managed_windows) ==> call_ensures(
            unobserve,
            (),
            detachment.unmark,
        ) && detachment.retry == if !detachment.unmark {
            Some(ObserverDetachRetry::scheduled(true, now))
        } else if !window_detached {
            Some(ObserverDetachRetry::scheduled(false, now))
        } else {
            None
        },
{
    let mut retry = !window_detached;
    let mut remove_application_marker = false;
    let mut unmark = false;
    if observed && !frontmost && !owns_other_managed_windows {
        if unobserve() {
            unmark = true;
        } else {
            retry = true;
            remove_application_marker = true;
        }
    }
    let retry = if retry {
        Some(ObserverDetachRetry::new(remove_application_marker, now))
    } else {
        None
    };
    Detachment { unmark, retry }
}

/// How another try to detach went.
#[derive(Clone, Copy, Debug, PartialEq, Eq, Structural)]
pub enum RetryOutcome {
    /// It is not time yet.
    Wait,
    /// The observer came off; the application may no longer count as observed.
    Detached { unmark: bool },
    /// There are no tries left. The application still counts as observed.
    GaveUp,
    /// It is tried again later.
    Again,
}

/// Tries to detach again, once it is time. `remove` takes the observer off and
/// says whether that worked.
pub fn retry_observer_detach<F: FnOnce() -> bool>(
    retry: &mut ObserverDetachRetry,
    observed: bool,
    remove: F,
    now: Instant,
) -> (outcome: RetryOutcome)
    requires
        old(retry).attempts < u8::MAX,
        now.nanos + DETACH_RETRY_NANOS <= u64::MAX,
        now.nanos >= old(retry).deadline.nanos ==> call_requires(remove, ()),
    ensures
        now.nanos < old(retry).deadline.nanos ==> outcome == RetryOutcome::Wait && *final(retry)
            == *old(retry),
        now.nanos >= old(retry).deadline.nanos ==> {
            ||| {
                &&& call_ensures(remove, (), true)
                &&& outcome == (RetryOutcome::Detached {
                    unmark: old(retry).remove_application_marker && observed,
                })
                &&& *final(retry) == *old(retry)
            }
            ||| {
                &&& call_ensures(remove, (), false)
                &&& outcome == if old(retry).gives_up() {
                    RetryOutcome::GaveUp
                } else {
                    RetryOutcome::Again
                }
                &&& *final(retry) == old(retry).after_failure(now)
            }
        },
{
    if !retry.due(now) {
        return RetryOutcome::Wait;
    }
    if remove() {
        RetryOutcome::Detached { unmark: retry.remove_application_marker && observed }
    } else if retry.failed_attempt(now) {
        RetryOutcome::GaveUp
    } else {
        RetryOutcome::Again
    }
}

/// A process and the applications that it runs.
#[derive(Debug)]
pub struct ProcessEntry {
    pub psn: ProcessSerialNumber,
    pub entity: Entity,
    pub applications: Vec<Entity>,
}

/// What follows from an event about a process.
#[derive(Clone, Copy, Debug, PartialEq, Eq, Structural)]
pub enum ProcessAction {
    Ignore,
    /// A new process is to be watched until it is ready.
    Spawn(ProcessSerialNumber),
    /// The process at this index is gone: its applications' observers come off
    /// and it is removed.
    Despawn(usize),
}

/// Entries with this serial number.
pub open spec fn has_psn(psn: ProcessSerialNumber) -> spec_fn(ProcessEntry) -> bool {
    |entry: ProcessEntry| entry.psn == psn
}

/// Finds a process by its serial number.
fn find_process(processes: &Vec<ProcessEntry>, psn: ProcessSerialNumber) -> (found: Option<usize>)
    ensures
        match found {
            Some(index) => search::first_index(processes@, has_psn(psn)) == Some(index as int),
            None => search::first_index(processes@, has_psn(psn)) is None,
        },
{
    let ghost p = has_psn(psn);
    let mut i: usize = 0;
    while i < processes.len()
        invariant
            i <= processes.len(),
            p == has_psn(psn),
            forall|j: int| 0 <= j < i ==> !p(#[trigger] processes@[j]),
        decreases processes.len() - i,
    {
        if processes[i].psn == psn {
            proof {
                search::lemma_first_index(processes@, p, i as int);
            }
            return Some(i);
        }
        i = i + 1;
    }
    proof {
        search::lemma_no_first_index(processes@, p);
    }
    None
}

/// What is done about a process on an event.
pub open spec fn action_on(event: Event, processes: Seq<ProcessEntry>) -> ProcessAction {
    match event {
        Event::ApplicationLaunched { psn } if search::first_index(processes, has_psn(psn))
            is None => ProcessAction::Spawn(psn),
        Event::ApplicationTerminated { psn } => match search::first_index(
            processes,
            has_psn(psn),
        ) {
            Some(index) => ProcessAction::Despawn(index as usize),
            None => ProcessAction::Ignore,
        },
        _ => ProcessAction::Ignore,
    }
}

/// What follows from an event: a process that is launched is watched unless it
/// is known, and a known one that terminates is removed.
pub fn application_event_trigger(event: &Event, processes: &Vec<ProcessEntry>) -> (action:
    ProcessAction)
    ensures
        action == action_on(*event, processes@),
{
    match event {
        Event::ApplicationLaunched { psn } => match find_process(processes, *psn) {
            None => ProcessAction::Spawn(*psn),
            Some(_) => ProcessAction::Ignore,
        },
        Event::ApplicationTerminated { psn } => match find_process(processes, *psn) {
            Some(index) => ProcessAction::Despawn(index),
            None => ProcessAction::Ignore,
        },
        _ => ProcessAction::Ignore,
    }
}

/// What is not to be observed any more.
#[derive(Clone, Copy, Debug, PartialEq, Eq, Structural)]
pub enum Detach {
    Window(WinID),
    Application,
}

/// What is detached when an application goes: its windows in order, then itself.
pub open spec fn all_detached(windows: Seq<WinID>) -> Seq<Detach> {
    windows.map_values(|window: WinID| Detach::Window(window)).push(Detach::Application)
}

/// What to detach from an application that ends: all of its windows, and then the
/// application itself. Whether one of them can be detached does not matter to the
/// others.
pub fn shutdown_application_observers(windows: &Vec<WinID>) -> (detach: Vec<Detach>)
    ensures
        detach@ == all_detached(windows@),
{
    let mut detach: Vec<Detach> = Vec::new();
    let mut i: usize = 0;
    while i < windows.len()
        invariant
            i <= windows.len(),
            detach.len() == i,
            forall|j: int| 0 <= j < i ==> #[trigger] detach@[j] == Detach::Window(windows@[j]),
        decreases windows.len() - i,
    {
        detach.push(Detach::Window(windows[i]));
        i = i + 1;
    }
    detach.push(Detach::Application);
    detach
}

} // verus!
