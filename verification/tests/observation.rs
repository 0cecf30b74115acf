//! Which applications are observed, and how detaching is tried again.
use std::cell::Cell;

use paneru::application::{
    add_observer, remove_observer, Application, Notification, ObserverType, Registration,
};
use paneru::clock::{Duration, Instant};
use paneru::errors::Error;
use paneru::events::{DestroySource, Event, ProcessSerialNumber};
use paneru::geometry::Entity;
use paneru::observation::{
    activate, application_event_trigger, detach_unmanaged_window, ensure_application_observer,
    required, retry_observer_detach, settle, shutdown_application_observers, ApplicationEntry,
    Detach, Detachment, ObserverDetachRetry,
    ProcessAction, ProcessEntry, RetryOutcome, ScopeAction, ScopeOutcome, DETACH_RETRY_LIMIT,
    DETACH_RETRY_NANOS,
};

const NOW: Instant = Instant { nanos: 1_000_000_000 };
const PAUSE: Duration = Duration { nanos: DETACH_RETRY_NANOS };

#[test]
fn observation_scope_excludes_irrelevant_background_apps() {
    assert!(required(true, false));
    assert!(required(false, true));
    assert!(!required(false, false));
}

#[test]
fn startup_managed_owner_attaches_broad_observer_once() {
    let calls = Cell::new(0);
    let observe = || {
        calls.set(calls.get() + 1);
        true
    };
    let mut observed = false;
    for _ in 0..2 {
        observed |= ensure_application_observer(observed, observe);
    }
    assert!(observed);
    assert_eq!(calls.get(), 1);
}

#[test]
fn last_background_managed_window_detaches_window_and_app() {
    let calls = Cell::new(0);
    let detachment = detach_unmanaged_window(
        true,
        true,
        false,
        false,
        || {
            calls.set(calls.get() + 1);
            true
        },
        NOW,
    );
    assert_eq!(detachment, Detachment { unmark: true, retry: None });
    assert_eq!(calls.get(), 1);
}

#[test]
fn an_application_that_is_still_needed_stays_observed() {
    for (observed, frontmost, owns_other) in
        [(false, false, false), (true, true, false), (true, false, true)]
    {
        let detachment = detach_unmanaged_window(
            true,
            observed,
            frontmost,
            owns_other,
            || panic!("it is still needed"),
            NOW,
        );
        assert_eq!(detachment, Detachment { unmark: false, retry: None });
    }
    let ambiguous =
        detach_unmanaged_window(false, true, true, false, || panic!("it is in front"), NOW);
    assert_eq!(ambiguous.retry, Some(ObserverDetachRetry::new(false, NOW)));
    let stuck = detach_unmanaged_window(true, true, false, false, || false, NOW);
    assert_eq!(stuck.retry, Some(ObserverDetachRetry::new(true, NOW)));
}

fn application(entity: Entity, observed: bool) -> ApplicationEntry {
    ApplicationEntry { entity, children: Vec::new(), observed }
}

/// Does what is to be done, all of it with success, and tells what that was.
fn activated(applications: &mut Vec<ApplicationEntry>, target: Option<Entity>) -> Vec<ScopeAction> {
    let actions = activate(applications, &Vec::new(), target);
    for action in &actions {
        match settle(*action, true, NOW) {
            ScopeOutcome::Mark(entity) => {
                applications.iter_mut().find(|a| a.entity == entity).unwrap().observed = true;
            }
            ScopeOutcome::Unmark(entity) => {
                applications.iter_mut().find(|a| a.entity == entity).unwrap().observed = false;
            }
            outcome => panic!("{outcome:?}"),
        }
    }
    actions
}

#[test]
fn repeated_front_switches_are_idempotent_and_detach_previous_app() {
    let (first, second) = (Entity(1), Entity(2));
    let mut applications = vec![application(first, false), application(second, false)];
    assert_eq!(activated(&mut applications, Some(first)), vec![ScopeAction::Observe(first)]);
    assert_eq!(activated(&mut applications, Some(first)), vec![]);
    assert_eq!(
        activated(&mut applications, Some(second)),
        vec![ScopeAction::Unobserve(first), ScopeAction::Observe(second)]
    );
    assert!(!applications[0].observed);
    assert!(applications[1].observed);
}

#[test]
fn switching_to_untracked_process_detaches_unowned_previous_observer() {
    let known = Entity(1);
    let mut applications = vec![application(known, false)];
    activated(&mut applications, Some(known));
    assert!(applications[0].observed);

    activated(&mut applications, None);
    assert!(!applications[0].observed);
}

#[test]
fn the_owner_of_a_managed_window_stays_observed_in_the_background() {
    let mut owner = application(Entity(1), true);
    owner.children = vec![Entity(10), Entity(11)];
    let applications = vec![owner];
    assert!(activate(&applications, &vec![Entity(11)], None).is_empty());
    assert_eq!(
        activate(&applications, &vec![Entity(12)], None),
        vec![ScopeAction::Unobserve(Entity(1))]
    );
}

#[test]
fn what_fails_leaves_the_mark_alone() {
    let entity = Entity(1);
    assert_eq!(settle(ScopeAction::Observe(entity), false, NOW), ScopeOutcome::Keep);
    assert_eq!(
        settle(ScopeAction::Unobserve(entity), false, NOW),
        ScopeOutcome::Retry(entity, ObserverDetachRetry::new(true, NOW))
    );
}

#[test]
fn ambiguous_detach_retry_is_bounded_and_non_spinning() {
    let mut retry = ObserverDetachRetry::new(true, NOW);
    let first = retry.next_deadline();
    assert!(first.nanos > NOW.nanos);
    assert!(!retry.failed_attempt(first));
    assert_eq!(retry.next_deadline(), first.plus(PAUSE));
    let second = retry.next_deadline();
    assert!(!retry.failed_attempt(second));
    let third = retry.next_deadline();
    assert!(retry.failed_attempt(third));
}

#[test]
fn successful_retry_reconciles_context_and_ecs_marker() {
    let mut retry = ObserverDetachRetry::new(true, NOW);
    retry.deadline = NOW;
    let outcome = retry_observer_detach(&mut retry, true, || true, NOW);
    assert_eq!(outcome, RetryOutcome::Detached { unmark: true });
    // One that is not marked has no mark to lose.
    let outcome = retry_observer_detach(&mut retry, false, || true, NOW);
    assert_eq!(outcome, RetryOutcome::Detached { unmark: false });
}

#[test]
fn exhausted_retry_stops_waking_but_keeps_observed_marker() {
    let mut retry = ObserverDetachRetry::new(true, NOW);
    for attempt in 1..=DETACH_RETRY_LIMIT {
        retry.deadline = NOW;
        let outcome = retry_observer_detach(&mut retry, true, || false, NOW);
        if attempt < DETACH_RETRY_LIMIT {
            assert_eq!(outcome, RetryOutcome::Again);
        } else {
            assert_eq!(outcome, RetryOutcome::GaveUp);
        }
    }
}

#[test]
fn a_retry_waits_for_its_time() {
    let mut retry = ObserverDetachRetry::new(true, NOW);
    let outcome = retry_observer_detach(&mut retry, true, || panic!("too early"), NOW);
    assert_eq!(outcome, RetryOutcome::Wait);
    assert!(!retry.due(NOW));
    assert!(retry.due(NOW.plus(PAUSE)));
}

#[test]
fn processes_come_and_go_with_their_applications() {
    let psn = |low| ProcessSerialNumber { high: 0, low };
    let processes =
        vec![ProcessEntry { psn: psn(1), entity: Entity(5), applications: vec![Entity(6)] }];
    let launched = |low| Event::ApplicationLaunched { psn: psn(low) };
    assert_eq!(
        application_event_trigger(&launched(2), &processes),
        ProcessAction::Spawn(psn(2))
    );
    assert_eq!(application_event_trigger(&launched(1), &processes), ProcessAction::Ignore);
    let terminated = |low| Event::ApplicationTerminated { psn: psn(low) };
    assert_eq!(
        application_event_trigger(&terminated(1), &processes),
        ProcessAction::Despawn(0)
    );
    assert_eq!(application_event_trigger(&terminated(2), &processes), ProcessAction::Ignore);
    assert_eq!(
        application_event_trigger(&Event::SpaceChanged, &processes),
        ProcessAction::Ignore
    );
}

#[test]
fn notifications_become_events() {
    let app = ObserverType::Application;
    let window = ObserverType::Window(7);
    assert!(matches!(
        app.notify(Notification::Created, None),
        Some(Event::WindowCreated)
    ));
    assert!(matches!(
        app.notify(Notification::FocusedWindowChanged, Some(3)),
        Some(Event::WindowFocused { window_id: 3 })
    ));
    assert!(app.notify(Notification::WindowMoved, None).is_none());
    assert!(app.notify(Notification::ElementDestroyed, Some(3)).is_none());
    assert!(matches!(
        window.notify(Notification::ElementDestroyed, Some(3)),
        Some(Event::WindowDestroyed { window_id: 7, source: DestroySource::Accessibility })
    ));
    assert!(window.notify(Notification::Created, None).is_none());
    for which in [app, window] {
        for notification in which.notifications() {
            assert!(which.notify(notification, Some(7)).is_some());
        }
    }
}

#[test]
fn notifications_that_cannot_be_had_now_are_asked_for_again() {
    let asked = vec![
        (Notification::Created, Registration::Success),
        (Notification::WindowMoved, Registration::CannotComplete),
        (Notification::WindowResized, Registration::Failed),
        (Notification::MenuOpened, Registration::CannotComplete),
    ];
    assert_eq!(
        add_observer(&asked).unwrap(),
        vec![Notification::WindowMoved, Notification::MenuOpened]
    );
    let known = vec![(Notification::Created, Registration::AlreadyRegistered)];
    assert_eq!(add_observer(&known).unwrap(), vec![]);
    let none = vec![(Notification::Created, Registration::CannotComplete)];
    let error = add_observer(&none).unwrap_err();
    assert!(matches!(error, Error::PermissionDenied(_)));
    assert_eq!(
        error.text(),
        "Permission denied: add_observer: unable to register any observers!"
    );
}

#[test]
fn only_the_observers_of_the_window_go() {
    let contexts = vec![
        ObserverType::Application,
        ObserverType::Window(1),
        ObserverType::Window(2),
        ObserverType::Window(1),
    ];
    assert_eq!(
        remove_observer(&contexts, ObserverType::Window(1)),
        vec![ObserverType::Application, ObserverType::Window(2)]
    );
    assert_eq!(remove_observer(&contexts, ObserverType::Application), contexts);
}

#[test]
fn an_application_knows_its_windows() {
    let psn = ProcessSerialNumber { high: 0, low: 4 };
    let mut application: Application<&str> =
        Application::new(psn, 12, "Term".to_string(), Some(3));
    assert_eq!(application.entity(), None);
    assert_eq!((application.name(), application.pid()), ("Term", 12));
    assert_eq!((application.psn(), application.connection()), (psn, Some(3)));
    application.add_window(1, "one");
    application.add_window(2, "two");
    application.add_window(1, "uno");
    assert_eq!(application.find_window(1), Some(&"uno"));
    assert_eq!(application.remove_window(1), Some("uno"));
    assert_eq!(application.remove_window(1), None);
    assert_eq!(application.find_window(2), Some(&"two"));
    assert!(application.is_frontmost(psn));
    assert!(!application.is_frontmost(ProcessSerialNumber { high: 1, low: 4 }));
}

#[test]
fn termination_shutdown_detaches_all_window_and_application_observers() {
    assert_eq!(
        shutdown_application_observers(&vec![7]),
        vec![Detach::Window(7), Detach::Application]
    );
    assert_eq!(shutdown_application_observers(&vec![]), vec![Detach::Application]);
}
