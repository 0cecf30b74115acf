//! How long the event loop sleeps, and which events it hands on.
use std::cell::Cell;
use std::collections::VecDeque;

use paneru::clock::{Duration, Instant};
use paneru::events::{Event, Modifiers, Point};
use paneru::number::Number;
use paneru::observation::ObserverDetachRetry;
use paneru::params::{Configuration, DebouncedSystem, RuntimeOptions, ThrottledSystem};
use paneru::persistence::PersistenceState;
use paneru::runtime::{
    drain_event_channel, pump_receiver, runtime_activity, FocusRecoveryDeadline, FreshPollDeadline,
    OrphanReconcileDeadline, Received, RuntimeActivity, RuntimeWork, SyntheticEventPending,
    ACTIVE_FRAME_NANOS,
};

const NOW: Instant = Instant { nanos: 10_000_000_000 };

fn after(millis: u64) -> Instant {
    NOW.plus(Duration::from_millis(millis))
}

fn idle() -> RuntimeActivity {
    RuntimeActivity { frame_work: false, nearest_deadline: None }
}

fn no_work() -> RuntimeWork {
    RuntimeWork {
        repositioning: false,
        resizing: false,
        scrolling: false,
        flash_messages: false,
        timeouts: vec![],
        fresh_polls: vec![],
        refreshes: vec![],
        observer_detaches: vec![],
        orphan_checks: vec![],
        windows: false,
        focused_windows: false,
        focus_recovery: None,
        retries: vec![],
        verifications: vec![],
        initializing: false,
        restore: None,
        persistence: None,
        updater: None,
    }
}

fn queue(events: Vec<Event>) -> VecDeque<Received> {
    events.into_iter().map(Received::Event).chain([Received::Empty]).collect()
}

fn mouse(x: f64) -> Event {
    let number = |x: f64| Number { bits: x.to_bits() };
    Event::MouseMoved {
        point: Point { x: number(x), y: number(0.0) },
        modifiers: Modifiers { bits: 0 },
    }
}

#[test]
fn idle_runtime_has_no_periodic_deadline() {
    assert_eq!(idle().wait(NOW), None);
}

#[test]
fn frame_work_and_real_deadlines_have_distinct_waits() {
    let deadline = after(3000);
    assert_eq!(
        RuntimeActivity { frame_work: true, nearest_deadline: Some(deadline) }.wait(NOW),
        Some(Duration { nanos: ACTIVE_FRAME_NANOS })
    );
    assert_eq!(
        RuntimeActivity { frame_work: false, nearest_deadline: Some(deadline) }.wait(NOW),
        Some(Duration::from_millis(3000))
    );
}

#[test]
fn absolute_deadline_is_charged_once_after_sleep() {
    let deadline = after(50);
    let activity = RuntimeActivity { frame_work: false, nearest_deadline: Some(deadline) };
    assert_eq!(activity.wait(NOW), Some(Duration::from_millis(50)));
    assert_eq!(activity.wait(deadline), Some(Duration::from_millis(0)));
}

#[test]
fn deferred_deadline_wakes_real_pump_core_and_delivers_event() {
    let activity = RuntimeActivity { frame_work: false, nearest_deadline: Some(after(25)) };
    let observed_wait = Cell::new(None);

    let (events, should_exit, did_wait) =
        pump_receiver(&mut queue(vec![]), true, activity, NOW, false, |wait| {
            observed_wait.set(wait);
            queue(vec![Event::ThemeChanged])
        });

    assert_eq!(observed_wait.get(), Some(Duration::from_millis(25)));
    assert!(!should_exit);
    assert!(did_wait);
    assert!(events.iter().any(|event| matches!(event, Event::ThemeChanged)));
}

#[test]
fn fresh_poll_exposes_monotonic_retry_deadline() {
    let mut poll = FreshPollDeadline::new(NOW);
    let now = poll.next_deadline();
    assert!(poll.due(now));
    poll.schedule_next(now);
    assert_eq!(poll.next_deadline(), now.plus(Duration::from_millis(50)));
    assert!(!poll.due(now));
}

#[test]
fn other_deadlines_wait_a_second() {
    let mut orphan = OrphanReconcileDeadline::new(NOW);
    assert!(!orphan.due(NOW));
    assert!(orphan.due(after(1000)));
    orphan.schedule_next(after(1000));
    assert_eq!(orphan.next_deadline(), after(2000));
    let mut focus = FocusRecoveryDeadline::new(NOW);
    assert!(focus.due(NOW));
    focus.schedule_next(NOW);
    assert_eq!(focus.next_deadline(), after(1000));
}

#[test]
fn inactive_past_due_refresh_does_not_force_zero_wait() {
    let active_deadline = after(2000);
    let mut work = no_work();
    work.refreshes = vec![(NOW, false), (active_deadline, true)];

    let activity = runtime_activity(&work, NOW);

    assert_eq!(activity.nearest_deadline, Some(active_deadline));
    assert!(activity.wait(NOW).is_some_and(|wait| wait.nanos > 0));
}

#[test]
fn every_deadline_wakes_the_loop() {
    let deadline = after(700);
    let works: Vec<fn(&mut RuntimeWork, Instant)> = vec![
        |w, at| w.timeouts.push(at),
        |w, at| w.fresh_polls.push((FreshPollDeadline { at }, true)),
        |w, at| w.refreshes.push((at, true)),
        |w, at| {
            let mut retry = ObserverDetachRetry::new(true, NOW);
            retry.deadline = at;
            w.observer_detaches.push(retry);
        },
        |w, at| w.orphan_checks.push((OrphanReconcileDeadline { at }, true)),
        |w, at| {
            w.windows = true;
            w.focus_recovery = Some(FocusRecoveryDeadline { at });
        },
        |w, at| w.retries.push(at),
        |w, at| w.verifications.push(at),
        |w, at| w.restore = Some(at),
        |w, at| {
            let mut state = PersistenceState::default();
            state.dirty = true;
            state.save_at = Some(at);
            w.persistence = Some(state);
        },
        |w, at| w.updater = Some(at),
    ];
    for add in works {
        let mut work = no_work();
        add(&mut work, deadline);
        assert_eq!(runtime_activity(&work, NOW).nearest_deadline, Some(deadline));
    }
    let mut starting = no_work();
    starting.initializing = true;
    assert_eq!(
        runtime_activity(&starting, NOW).nearest_deadline,
        Some(NOW.plus(Duration { nanos: ACTIVE_FRAME_NANOS }))
    );
    let activity = runtime_activity(&no_work(), NOW);
    assert_eq!(activity, idle());
    let mut moving = no_work();
    moving.scrolling = true;
    assert!(runtime_activity(&moving, NOW).frame_work);
}

#[test]
fn the_nearest_deadline_is_the_earliest() {
    let deadlines = vec![None, Some(after(30)), Some(after(10)), None, Some(after(20))];
    assert_eq!(RuntimeActivity::nearest(&deadlines), Some(after(10)));
    assert_eq!(RuntimeActivity::nearest(&vec![None, None]), None);
}

#[test]
fn first_stage_pump_publishes_before_every_preupdate_reader() {
    let (events, should_exit, did_wait) = pump_receiver(
        &mut queue(vec![Event::ThemeChanged]),
        true,
        idle(),
        NOW,
        false,
        |_| panic!("queued native work must prevent sleeping"),
    );
    assert!(!did_wait);
    assert!(!should_exit);
    assert_eq!(events.len(), 1);
}

#[test]
fn synthetic_event_after_pump_prevents_next_frame_wait() {
    let mut pending = SyntheticEventPending::default();
    let (_, _, did_wait) = pump_receiver(&mut queue(vec![]), true, idle(), NOW, pending.take(), |_| {
        queue(vec![])
    });
    assert!(did_wait);

    pending.mark();
    let (_, _, did_wait) = pump_receiver(&mut queue(vec![]), true, idle(), NOW, pending.take(), |_| {
        panic!("latched synthetic work must prevent the next pump from waiting")
    });
    assert!(!did_wait);
    assert!(!pending.take());
}

#[test]
fn something_that_came_in_while_reading_prevents_sleeping() {
    let (_, _, did_wait) =
        pump_receiver(&mut queue(vec![]), false, idle(), NOW, false, |_| panic!("it is not quiet"));
    assert!(!did_wait);
}

#[test]
fn runs_of_mouse_moves_are_handed_on_as_their_last() {
    let (events, exit) = drain_event_channel(&mut queue(vec![
        mouse(1.0),
        mouse(2.0),
        Event::SpaceChanged,
        mouse(3.0),
        mouse(4.0),
    ]));
    assert!(!exit);
    let places: Vec<Option<f64>> = events
        .iter()
        .map(|event| match event {
            Event::MouseMoved { point, .. } => Some(f64::from_bits(point.x.bits)),
            _ => None,
        })
        .collect();
    assert_eq!(places, vec![Some(2.0), None, Some(4.0)]);
}

#[test]
fn nothing_is_read_after_the_exit() {
    let mut waiting = queue(vec![Event::SpaceChanged, Event::Exit, Event::ThemeChanged]);
    let (events, exit) = drain_event_channel(&mut waiting);
    assert!(exit);
    assert_eq!(events.len(), 1);
    assert!(matches!(waiting.front(), Some(Received::Event(Event::ThemeChanged))));
    assert_eq!(waiting.len(), 2);
    let mut gone: VecDeque<Received> = VecDeque::from([Received::Disconnected]);
    assert!(drain_event_channel(&mut gone).1);
    assert!(gone.is_empty());
}

#[test]
fn a_throttled_system_runs_once_in_a_period() {
    let mut system = ThrottledSystem {
        period: Duration { nanos: 0 },
        elapsed: Duration { nanos: 0 },
    };
    let period = Duration::from_millis(500);
    let frame = Duration::from_millis(200);
    let runs: Vec<bool> = (0..6).map(|_| !system.throttled(frame, period)).collect();
    assert_eq!(runs, vec![false, false, true, false, true, false]);
    let mut always = ThrottledSystem {
        period: Duration { nanos: 0 },
        elapsed: Duration { nanos: 0 },
    };
    assert!(!always.throttled(frame, Duration { nanos: 0 }));
}

#[test]
fn a_debounced_system_waits_out_the_pause() {
    let mut system = DebouncedSystem { elapsed: Duration { nanos: 0 } };
    let pause = Duration::from_millis(100);
    assert!(!system.bounce(Duration::from_millis(1000), pause));
    assert!(system.bounce(Duration::from_millis(1080), pause));
    // The one before was ignored, and starts the pause anew all the same.
    assert!(system.bounce(Duration::from_millis(1160), pause));
    assert!(system.bounce(Duration::from_millis(1260), pause));
    assert!(!system.bounce(Duration::from_millis(1361), pause));
}

#[test]
fn switches_are_on_unless_they_are_turned_off() {
    let none = RuntimeOptions {
        focus_follows_mouse: None,
        mouse_follows_focus: None,
        continuous_swipe: None,
        swipe_gesture_fingers: None,
    };
    let mut configuration = Configuration::new(none, true);
    assert!(configuration.focus_follows_mouse());
    assert!(configuration.mouse_follows_focus());
    assert!(configuration.continuous_swipe());
    assert_eq!(configuration.swipe_gesture_fingers(), None);
    assert!(configuration.mission_control_active());
    configuration.set_ffm_flag(Some(4));
    configuration.set_skip_reshuffle(true);
    assert_eq!(configuration.ffm_flag(), Some(4));
    assert!(configuration.skip_reshuffle());
    let off = RuntimeOptions { focus_follows_mouse: Some(false), ..none };
    assert!(!Configuration::new(off, false).focus_follows_mouse());
}
