//! Scrolling a strip: gestures, stops and edges.
use paneru::clock::{Duration, Instant};
use paneru::commands::Direction;
use paneru::config::swipe::{accepted_fingers, SwipeGestureDirection};
use paneru::events::Event;
use paneru::geometry::IRect;
use paneru::number::Number;
use paneru::scroll::motion::{
    apply_inertia, apply_scroll_physics_post_swipe, scrolling_integrator, switch_virtual_workspace,
    swiping_timeout, vertical_swipe_gesture, PostSwipe, Timeout, VerticalGestureState,
    GESTURE_TIMEOUT_NANOS,
};
use paneru::scroll::paging::{
    capture_gesture, constrain_motion, paging_columns, ready_to_snap, snap_stops, snap_target, Hop,
    Release,
};
use paneru::scroll::viewport::{
    apply_scrolling_constraints, apply_snap_force, clamp_viewport_offset, magnetic_snap_to_center,
    nearest_center, reconcile_integrated_position, snap_mode, sticky_edge_snap_target,
    ColumnMetrics, SnapMode, SnapScene,
};
use paneru::scroll::{
    begin_touchpad_gesture, finish_touchpad_gesture, mark_physical_touch_end, read_gesture_input, resume_touchpad_gesture,
    swipe_gesture, Lifecycle, PagingGesture, Scrolling, SwipeInput, SwipeSettings,
};

const NOW: Instant = Instant { nanos: 10_000_000_000 };

fn number(value: f64) -> Number {
    Number { bits: value.to_bits() }
}

fn value(number: Number) -> f64 {
    f64::from_bits(number.bits)
}

fn still() -> Scrolling {
    Scrolling {
        velocity: number(0.0),
        position: number(0.0),
        target_position: None,
        snap_pending: false,
        is_user_swiping: false,
        gesture_active: false,
        paging_gesture: None,
        last_event: NOW,
    }
}

fn gesture() -> PagingGesture {
    PagingGesture {
        start_stop: number(-600.0),
        previous_stop: Some(number(0.0)),
        next_stop: Some(number(-1100.0)),
        release_velocity: number(0.0),
    }
}

fn stops(viewport: &IRect, columns: &[(i32, i32)]) -> Vec<f64> {
    snap_stops(viewport, &columns.to_vec()).into_iter().map(f64::from).collect()
}

/// The gesture that starts at the stop nearest to an offset.
fn captured(position: f64, viewport: &IRect, columns: &[(i32, i32)]) -> Option<PagingGesture> {
    let stops = stops(viewport, columns);
    let distances = stops.iter().map(|stop| number((position - stop).abs())).collect();
    capture_gesture(&stops.iter().map(|stop| number(*stop)).collect(), &distances)
}

/// Where a gesture ends that is let go at an offset.
fn target(position: f64, width: f64, paging: PagingGesture) -> f64 {
    let start = value(paging.start_stop);
    let threshold = |neighbor: Option<Number>| {
        number(neighbor.map_or(0.0, |n| ((start - value(n)).abs() * 0.25).min(width * 0.25)))
    };
    let release = Release {
        displacement: number(position - start),
        from_previous: paging.previous_stop.map(|stop| number(position - value(stop))),
        from_next: paging.next_stop.map(|stop| number(position - value(stop))),
        previous_threshold: threshold(paging.previous_stop),
        next_threshold: threshold(paging.next_stop),
        velocity: paging.release_velocity,
    };
    match snap_target(&release) {
        Hop::Start => start,
        Hop::Previous => value(paging.previous_stop.unwrap()),
        Hop::Next => value(paging.next_stop.unwrap()),
    }
}

#[test]
fn normal_has_one_stop_and_oversized_has_two() {
    let viewport = IRect::new(0, 0, 1000, 800);
    assert_eq!(
        stops(&viewport, &[(0, 600), (600, 1500), (2100, 600)]),
        vec![0.0, -600.0, -1100.0, -1700.0]
    );
}

#[test]
fn arbitrarily_wide_column_still_has_exactly_two_stops() {
    let viewport = IRect::new(0, 0, 1000, 800);
    let stops = stops(&viewport, &[(0, 600), (600, 3500), (4100, 600)]);
    assert_eq!(stops, vec![0.0, -600.0, -3100.0, -3700.0]);
    assert_eq!(
        stops
            .iter()
            .filter(|stop| **stop <= -600.0 && **stop >= -3100.0)
            .count(),
        2
    );
}

#[test]
fn neighborhood_is_ordered_and_reverse_symmetric() {
    let viewport = IRect::new(0, 0, 1000, 800);
    let columns = [(0, 600), (600, 1500), (2100, 600)];
    let left = captured(-600.0, &viewport, &columns).unwrap();
    assert_eq!(
        (left.previous_stop.map(value), left.next_stop.map(value)),
        (Some(0.0), Some(-1100.0))
    );
    let right = captured(-1100.0, &viewport, &columns).unwrap();
    assert_eq!(
        (right.previous_stop.map(value), right.next_stop.map(value)),
        (Some(-600.0), Some(-1700.0))
    );
    assert!(captured(0.0, &viewport, &[]).is_none());
}

#[test]
fn motion_is_capped_at_adjacent_stops() {
    let mut scrolling = Scrolling {
        position: number(-5000.0),
        target_position: Some(number(-4000.0)),
        velocity: number(-2.0),
        paging_gesture: Some(gesture()),
        ..still()
    };
    let state = |s: &Scrolling| (value(s.position), s.target_position.map(value), value(s.velocity));
    constrain_motion(&mut scrolling, SwipeGestureDirection::Reversed);
    assert_eq!(state(&scrolling), (-1100.0, Some(-1100.0), 0.0));

    scrolling.position = number(5000.0);
    scrolling.target_position = Some(number(4000.0));
    scrolling.velocity = number(2.0);
    constrain_motion(&mut scrolling, SwipeGestureDirection::Reversed);
    assert_eq!(state(&scrolling), (0.0, Some(0.0), 0.0));
}

#[test]
fn release_returns_or_advances_exactly_one_stop() {
    let paging = gesture();
    assert_eq!(target(-700.0, 1000.0, paging), -600.0);
    assert_eq!(target(-730.0, 1000.0, paging), -1100.0);
    assert_eq!(target(-1080.0, 1000.0, paging), -1100.0);
    assert_eq!(
        target(-650.0, 1000.0, PagingGesture { release_velocity: number(-0.5), ..paging }),
        -1100.0
    );
    assert_eq!(
        target(
            -970.0,
            1000.0,
            PagingGesture {
                start_stop: number(-1100.0),
                previous_stop: Some(number(-600.0)),
                next_stop: Some(number(-1700.0)),
                release_velocity: number(0.0)
            }
        ),
        -600.0
    );
}

#[test]
fn snap_waits_for_end_and_momentum_settlement() {
    let mut scrolling = Scrolling { gesture_active: true, is_user_swiping: true, ..still() };
    assert!(!ready_to_snap(&scrolling));
    scrolling.gesture_active = false;
    assert!(!ready_to_snap(&scrolling));
    scrolling.is_user_swiping = false;
    scrolling.target_position = Some(number(-600.0));
    assert!(!ready_to_snap(&scrolling));
    scrolling.target_position = None;
    scrolling.velocity = number(0.51);
    assert!(!ready_to_snap(&scrolling));
    scrolling.velocity = number(0.5);
    assert!(ready_to_snap(&scrolling));
}

#[test]
fn sticky_scroll_snaps_only_inside_the_edge_hit_zone() {
    let viewport = IRect::new(0, 0, 1000, 800);
    let columns = vec![(0, 600), (600, 600)];
    assert_eq!(sticky_edge_snap_target(-631, &viewport, &columns), Some(-600));
    assert_eq!(sticky_edge_snap_target(-169, &viewport, &columns), Some(-200));
    assert_eq!(sticky_edge_snap_target(-591, &viewport, &columns), None);
    assert_eq!(sticky_edge_snap_target(-167, &viewport, &columns), None);
}

#[test]
fn sticky_scroll_exposes_both_edges_of_an_oversized_column() {
    let viewport = IRect::new(0, 0, 1000, 800);
    let column = vec![(0, 1500)];
    assert_eq!(sticky_edge_snap_target(-9, &viewport, &column), Some(0));
    assert_eq!(sticky_edge_snap_target(-491, &viewport, &column), Some(-500));
    assert_eq!(sticky_edge_snap_target(-250, &viewport, &column), None);
}

#[test]
fn explicit_touchpad_contact_is_not_ended_by_inactivity_fallback() {
    let later = NOW.plus(Duration::from_millis(100));
    let mut held = Scrolling { gesture_active: true, is_user_swiping: true, ..still() };
    assert_eq!(swiping_timeout(&mut held, number(0.0), later), Timeout::Active);
    assert!(held.is_user_swiping);
    assert!(held.gesture_active);

    let mut lifted = Scrolling { is_user_swiping: true, ..still() };
    assert_eq!(
        swiping_timeout(&mut lifted, number(0.0), later),
        Timeout::Ended { remove: true }
    );
    assert!(!lifted.is_user_swiping);
}

const QUIET: Lifecycle =
    Lifecycle { down: false, physical_up: false, momentum_start: false, up: false };

fn input(lifecycle: Lifecycle, scroll: Option<f64>, swiped: Option<f64>) -> SwipeInput {
    SwipeInput {
        lifecycle,
        scroll_distance: scroll.map(number),
        scroll_moves: scroll.is_some_and(|distance| distance != 0.0),
        gesture_distance: swiped.map(number),
        new_velocity: number(swiped.unwrap_or(0.0)),
    }
}

fn swipe(input: &SwipeInput, candidate: Option<PagingGesture>, state: &mut Option<Scrolling>) {
    let settings = SwipeSettings {
        swipe_paging: true,
        sticky_scroll: false,
        auto_center: false,
        direction: SwipeGestureDirection::Reversed,
    };
    let plus = |a: Number, b: Number| number(value(a) + value(b));
    let blend = |a: Number| number(value(a) * 0.5);
    swipe_gesture(input, &settings, candidate, number(-600.0), NOW, &plus, &blend, state);
}

#[test]
fn explicit_touchpad_begin_creates_lifecycle_state_before_first_delta() {
    let mut state = None;
    swipe(&input(Lifecycle { down: true, ..QUIET }, None, None), Some(gesture()), &mut state);
    let scrolling = state.expect("touch begin must create scrolling lifecycle state");
    assert!(scrolling.is_user_swiping);
    assert!(scrolling.gesture_active);
    assert!(scrolling.paging_gesture.is_some());
}

#[test]
fn later_native_momentum_keeps_original_one_hop_paging_session() {
    let mut state = None;
    swipe(&input(Lifecycle { down: true, ..QUIET }, None, None), Some(gesture()), &mut state);
    swipe(&input(QUIET, Some(-400.0), None), None, &mut state);
    swipe(&input(Lifecycle { physical_up: true, ..QUIET }, None, None), None, &mut state);
    let lifted = state.unwrap();
    assert!(!lifted.gesture_active);
    assert!(lifted.is_user_swiping);
    swipe(&input(Lifecycle { momentum_start: true, ..QUIET }, None, None), None, &mut state);
    assert!(state.unwrap().gesture_active);
    swipe(&input(QUIET, Some(-400.0), None), None, &mut state);
    let scrolling = state.unwrap();
    assert_eq!(scrolling.paging_gesture, Some(gesture()));
    let reached = scrolling.target_position.map_or(value(scrolling.position), value);
    assert_eq!(reached, -1100.0);
}

#[test]
fn touchpad_down_during_pending_settlement_does_not_recapture_stop() {
    let mut state = None;
    swipe(&input(Lifecycle { down: true, ..QUIET }, None, None), Some(gesture()), &mut state);
    swipe(&input(QUIET, Some(-100.0), None), None, &mut state);
    swipe(&input(Lifecycle { physical_up: true, ..QUIET }, None, None), None, &mut state);
    let other = PagingGesture { start_stop: number(0.0), previous_stop: None, ..gesture() };
    swipe(&input(Lifecycle { down: true, ..QUIET }, None, None), Some(other), &mut state);
    let scrolling = state.unwrap();
    assert_eq!(scrolling.paging_gesture, Some(gesture()));
    assert!(scrolling.gesture_active);
    assert!(scrolling.is_user_swiping);
}

#[test]
fn physical_up_and_momentum_start_in_same_update_leave_momentum_active() {
    let mut state = None;
    swipe(&input(Lifecycle { down: true, ..QUIET }, None, None), Some(gesture()), &mut state);
    swipe(&input(QUIET, Some(-100.0), None), None, &mut state);
    let both = Lifecycle { physical_up: true, momentum_start: true, ..QUIET };
    swipe(&input(both, None, None), None, &mut state);
    let scrolling = state.unwrap();
    assert!(scrolling.gesture_active, "momentum start must win over physical end");
    assert!(scrolling.is_user_swiping);
}

#[test]
fn fingers_move_the_strip_and_leave_it_coasting() {
    let mut state = None;
    swipe(&input(QUIET, None, Some(-40.0)), Some(gesture()), &mut state);
    let first = state.unwrap();
    assert_eq!(value(first.position), -640.0);
    assert_eq!(value(first.velocity), -40.0);
    swipe(&input(QUIET, None, Some(-40.0)), None, &mut state);
    let second = state.unwrap();
    assert_eq!(value(second.position), -680.0);
    assert_eq!(value(second.velocity), -20.0);
    // The end of the gesture keeps how fast the strip was let go.
    swipe(&input(Lifecycle { up: true, ..QUIET }, None, None), None, &mut state);
    let released = state.unwrap();
    assert!(!released.is_user_swiping);
    assert_eq!(released.paging_gesture.map(|p| value(p.release_velocity)), Some(-20.0));
}

#[test]
fn momentum_alone_starts_nothing() {
    let mut state = None;
    swipe(&input(Lifecycle { momentum_start: true, ..QUIET }, None, None), Some(gesture()), &mut state);
    assert!(state.is_none());
    swipe(&input(QUIET, None, None), Some(gesture()), &mut state);
    assert!(state.is_none());
}

#[test]
fn the_stages_of_a_gesture_only_touch_a_strip_in_motion() {
    let mut none = None;
    begin_touchpad_gesture(true, true, true, Some(gesture()), NOW, &mut none);
    resume_touchpad_gesture(true, true, NOW, &mut none);
    mark_physical_touch_end(true, NOW, &mut none);
    assert!(none.is_none());
    let mut some = Some(Scrolling { target_position: Some(number(1.0)), ..still() });
    resume_touchpad_gesture(true, true, NOW, &mut some);
    assert_eq!(some.unwrap().target_position, None);
    assert!(some.unwrap().gesture_active);
    mark_physical_touch_end(true, NOW, &mut some);
    assert!(!some.unwrap().gesture_active);
    begin_touchpad_gesture(true, false, true, Some(gesture()), NOW, &mut some);
    assert!(!some.unwrap().gesture_active);
    assert_eq!(some.unwrap().paging_gesture, Some(gesture()));
}

#[test]
fn a_slow_strip_stops_and_a_fast_one_decays() {
    let mut fast = Scrolling { velocity: number(-2.0), ..still() };
    apply_inertia(&mut fast, number(-1.5));
    assert_eq!(value(fast.velocity), -1.5);
    let mut slow = Scrolling { velocity: number(0.0009), ..still() };
    apply_inertia(&mut slow, number(0.0005));
    assert_eq!(value(slow.velocity), 0.0);
    let mut swiped = Scrolling { velocity: number(2.0), is_user_swiping: true, ..still() };
    apply_inertia(&mut swiped, number(1.0));
    assert_eq!(value(swiped.velocity), 2.0);
}

#[test]
fn a_strip_that_is_there_has_nowhere_to_go() {
    let mut scroll = Scrolling { target_position: Some(number(-1.0)), ..still() };
    scrolling_integrator(
        &mut scroll,
        (number(-1.0), true),
        number(9.0),
        SwipeGestureDirection::Natural,
    );
    assert_eq!(value(scroll.position), -1.0);
    assert_eq!(scroll.target_position, None);
    let mut coasting = Scrolling { velocity: number(0.5), ..still() };
    scrolling_integrator(
        &mut coasting,
        (number(0.0), false),
        number(9.0),
        SwipeGestureDirection::Natural,
    );
    assert_eq!(value(coasting.position), 9.0);
}

#[test]
fn only_swipes_with_the_configured_fingers_count() {
    let events = vec![
        Event::Scroll { delta: number(1.0) },
        Event::Swipe { delta: number(2.0), fingers: 3 },
        Event::Swipe { delta: number(3.0), fingers: 4 },
        Event::TouchpadDown,
        Event::Scroll { delta: number(4.0) },
    ];
    let read = read_gesture_input(&events, Some(3));
    assert_eq!(read.scroll_deltas.iter().map(|d| value(*d)).collect::<Vec<_>>(), vec![1.0, 4.0]);
    assert_eq!(read.gesture_deltas.iter().map(|d| value(*d)).collect::<Vec<_>>(), vec![2.0]);
    assert_eq!(read.lifecycle, Lifecycle { down: true, ..QUIET });
    assert!(read_gesture_input(&events, None).gesture_deltas.is_empty());
    // Fewer than three fingers never swipe.
    let two = vec![Event::Swipe { delta: number(2.0), fingers: 2 }];
    assert!(read_gesture_input(&two, Some(2)).gesture_deltas.is_empty());
    assert_eq!(accepted_fingers(Some(2)), None);
    assert_eq!(accepted_fingers(Some(3)), Some(3));
}

#[test]
fn columns_of_unknown_width_are_no_stops() {
    let column = |position, width| ColumnMetrics { position, top_width: None, width };
    let columns = vec![
        column(Some(0), Some(600)),
        column(None, Some(600)),
        column(Some(600), None),
        column(Some(1200), Some(300)),
    ];
    assert_eq!(paging_columns(&columns), vec![(0, 600), (1200, 300)]);
}

fn column(position: i32, width: i32) -> ColumnMetrics {
    ColumnMetrics { position: Some(position), top_width: Some(width), width: Some(width) }
}

fn scene(columns: Vec<ColumnMetrics>, displacement: f64) -> SnapScene {
    SnapScene {
        viewport: IRect::new(0, 0, 1000, 800),
        columns,
        release: Release {
            displacement: number(displacement),
            from_previous: Some(number(displacement - 600.0)),
            from_next: Some(number(displacement + 500.0)),
            previous_threshold: number(150.0),
            next_threshold: number(125.0),
            velocity: number(0.0),
        },
    }
}

fn vertical() -> VerticalGestureState {
    VerticalGestureState { accumulated: number(0.0), last_event: None, fired: false }
}

#[test]
fn whole_numbers_are_fractions_too() {
    for whole in [0, 1, -1, 2, 3, -7, 599, 1 << 30, i32::MAX, i32::MIN, -1_234_567_890] {
        assert_eq!(Number::from_whole(whole).bits, f64::from(whole).to_bits());
        assert_eq!(Number::from_whole(whole).truncated(), whole);
    }
    for fraction in [
        0.0, -0.0, 0.99, -0.99, 1.5, -2.75, 1e9 + 0.5, 2147483647.9, 2147483648.0, -2147483648.9,
        1e300, -1e300, 5e-324, f64::INFINITY, f64::NEG_INFINITY, f64::NAN,
    ] {
        assert_eq!(number(fraction).truncated(), fraction as i32);
    }
}

#[test]
fn fractions_are_ordered_clamped_and_negated() {
    assert!(number(-1.0).less_than(Number::half()));
    assert!(!number(f64::NAN).less_than(number(1.0)));
    assert!(number(-0.0).no_more_than(number(0.0)) && number(0.0).no_more_than(number(-0.0)));
    assert_eq!(value(number(3.0).clamp(number(-1.0), number(2.0))), 2.0);
    assert_eq!(value(number(-3.0).clamp(number(-1.0), number(2.0))), -1.0);
    assert_eq!(value(number(1.25).negated()), -1.25);
}

#[test]
fn paging_comes_before_edges_and_edges_before_centring() {
    assert_eq!(snap_mode(true, true, true), SnapMode::Paging);
    assert_eq!(snap_mode(false, true, true), SnapMode::Sticky);
    assert_eq!(snap_mode(false, false, true), SnapMode::Center);
    assert_eq!(snap_mode(false, false, false), SnapMode::Off);
}

#[test]
fn a_settled_strip_snaps_to_the_stop_of_its_gesture() {
    let waiting = Scrolling { snap_pending: true, paging_gesture: Some(gesture()), ..still() };
    let mut scroll = waiting;
    apply_snap_force(SnapMode::Paging, &mut scroll, -400, &scene(vec![], 200.0));
    assert_eq!(scroll.target_position.map(value), Some(0.0));
    assert!(!scroll.snap_pending);
    let mut back = waiting;
    apply_snap_force(SnapMode::Paging, &mut back, -590, &scene(vec![], 10.0));
    assert_eq!(back.target_position.map(value), Some(-600.0));
    // Without a gesture there is no stop to go to.
    let mut none = Scrolling { paging_gesture: None, ..waiting };
    apply_snap_force(SnapMode::Paging, &mut none, -400, &scene(vec![], 200.0));
    assert!(none.target_position.is_none() && !none.snap_pending);
    // A strip that is still swiped waits.
    let mut swiped = Scrolling { is_user_swiping: true, ..waiting };
    apply_snap_force(SnapMode::Paging, &mut swiped, -400, &scene(vec![], 200.0));
    assert!(swiped.target_position.is_none() && swiped.snap_pending);
}

#[test]
fn a_settled_strip_snaps_to_an_edge_or_to_the_middle() {
    let waiting = Scrolling { snap_pending: true, velocity: number(0.25), ..still() };
    let columns = vec![column(0, 600), column(600, 600)];
    let mut caught = waiting;
    apply_snap_force(SnapMode::Sticky, &mut caught, -609, &scene(columns.clone(), 0.0));
    assert_eq!(caught.target_position.map(value), Some(-600.0));
    assert_eq!(value(caught.velocity), 0.0);
    let mut free = waiting;
    apply_snap_force(SnapMode::Sticky, &mut free, -300, &scene(columns.clone(), 0.0));
    assert!(free.target_position.is_none() && !free.snap_pending);
    assert_eq!(value(free.velocity), 0.25);
    let mut centred = waiting;
    apply_snap_force(SnapMode::Center, &mut centred, 100, &scene(columns.clone(), 0.0));
    assert_eq!(centred.target_position.map(value), Some(200.0));
    let mut far = waiting;
    apply_snap_force(SnapMode::Center, &mut far, 650, &scene(columns.clone(), 0.0));
    assert!(far.target_position.is_none());
    let mut off = waiting;
    apply_snap_force(SnapMode::Off, &mut off, 100, &scene(columns, 0.0));
    assert!(off.target_position.is_none() && !off.snap_pending);
}

#[test]
fn the_nearest_centre_pulls_a_strip_that_is_close() {
    let viewport = IRect::new(0, 0, 1000, 800);
    assert_eq!(nearest_center(-300, &viewport, &vec![(0, 600), (600, 600)]), -400);
    assert_eq!(nearest_center(-300, &viewport, &vec![]), -300);
    let columns = vec![column(0, 600), column(600, 600)];
    assert_eq!(magnetic_snap_to_center(false, -370, &viewport, &columns), Some(30));
    assert_eq!(magnetic_snap_to_center(false, -350, &viewport, &columns), None);
    assert_eq!(magnetic_snap_to_center(true, -370, &viewport, &columns), None);
}

#[test]
fn a_strip_stays_in_view() {
    let viewport = IRect::new(0, 0, 1000, 800);
    let columns = vec![column(0, 800), column(800, 800)];
    assert_eq!(clamp_viewport_offset(50, &columns, &viewport, false, false), Some(0));
    assert_eq!(clamp_viewport_offset(-900, &columns, &viewport, false, false), Some(-600));
    // The last window may reach the left edge, and the second the right edge.
    assert_eq!(clamp_viewport_offset(-900, &columns, &viewport, false, true), Some(-800));
    assert_eq!(clamp_viewport_offset(900, &columns, &viewport, false, true), Some(200));
    assert_eq!(clamp_viewport_offset(50, &columns, &viewport, true, true), Some(0));
    assert_eq!(clamp_viewport_offset(0, &vec![], &viewport, false, false), None);
}

#[test]
fn what_is_behind_the_point_survives_unless_the_strip_was_moved() {
    assert_eq!(value(reconcile_integrated_position(number(-3.75), -3, -3)), -3.75);
    assert_eq!(value(reconcile_integrated_position(number(-3.75), -3, 0)), 0.0);

    let viewport = IRect::new(0, 0, 1000, 800);
    let columns = vec![column(0, 800), column(800, 800)];
    let mut position = 7;
    let mut scroll = Scrolling {
        position: number(-3.75),
        target_position: Some(number(-700.5)),
        ..still()
    };
    apply_scrolling_constraints(&mut position, &mut scroll, &columns, &viewport, false, false);
    assert_eq!(position, -3);
    assert_eq!(value(scroll.position), -3.75);
    assert_eq!(scroll.target_position.map(value), Some(-600.0));
    let once = (position, value(scroll.position), scroll.target_position.map(value));
    apply_scrolling_constraints(&mut position, &mut scroll, &columns, &viewport, false, false);
    assert_eq!(once, (position, value(scroll.position), scroll.target_position.map(value)));
    // A strip without a known end stands.
    scroll.velocity = number(2.0);
    apply_scrolling_constraints(&mut position, &mut scroll, &vec![], &viewport, false, false);
    assert_eq!((position, value(scroll.velocity)), (-3, 0.0));
    assert!(scroll.target_position.is_none());
}

#[test]
fn a_finished_gesture_keeps_how_fast_it_was_let_go() {
    let mut scrolling = Some(Scrolling {
        velocity: number(2.0),
        gesture_active: true,
        is_user_swiping: true,
        paging_gesture: Some(gesture()),
        ..still()
    });
    finish_touchpad_gesture(false, SwipeGestureDirection::Natural, &mut scrolling);
    assert!(scrolling.is_some_and(|s| s.gesture_active && s.is_user_swiping));
    let mut reversed = scrolling;
    finish_touchpad_gesture(true, SwipeGestureDirection::Natural, &mut scrolling);
    finish_touchpad_gesture(true, SwipeGestureDirection::Reversed, &mut reversed);
    let natural = scrolling.and_then(|s| s.paging_gesture).expect("a gesture");
    let other = reversed.and_then(|s| s.paging_gesture).expect("a gesture");
    assert_eq!(value(natural.release_velocity), -2.0);
    assert_eq!(value(other.release_velocity), 2.0);
    assert!(scrolling.is_some_and(|s| !s.gesture_active && !s.is_user_swiping));
}

#[test]
fn a_coasting_strip_slows_down_and_stops() {
    let mut scroll = Scrolling { velocity: number(0.5), ..still() };
    let step = |scroll: &mut Scrolling, speed: f64| {
        apply_scroll_physics_post_swipe(scroll, number(speed), number(300.0), true, number(0.4))
    };
    assert_eq!(step(&mut scroll, 500.0), Some(PostSwipe { refocus: false, stop: false }));
    assert_eq!(value(scroll.velocity), 0.4);
    assert_eq!(step(&mut scroll, 200.0), Some(PostSwipe { refocus: true, stop: false }));
    scroll.velocity = number(0.05);
    assert_eq!(step(&mut scroll, 50.0), Some(PostSwipe { refocus: true, stop: true }));
    assert_eq!(value(scroll.velocity), 0.05);
    scroll.is_user_swiping = true;
    assert_eq!(step(&mut scroll, 50.0), None);
}

#[test]
fn a_vertical_swipe_switches_the_workspace_once() {
    let plus = |a: Number, b: Number| number(value(a) + value(b));
    let swipe = |delta| Event::VerticalSwipe { delta: number(delta), fingers: 3 };
    let natural = SwipeGestureDirection::Natural;
    let mut state = vertical();
    let mut run = |events: Vec<Event>, fullscreen, now| {
        vertical_swipe_gesture(
            &events, Some(3), fullscreen, natural, number(0.15), now, &plus, &mut state,
        )
    };
    assert_eq!(run(vec![swipe(0.1)], false, NOW), vec![]);
    assert_eq!(run(vec![swipe(0.1)], true, NOW), vec![]);
    assert_eq!(run(vec![swipe(0.1)], false, NOW), vec![Direction::North]);
    assert_eq!(run(vec![swipe(1.0)], false, NOW), vec![]);
    let later = Instant { nanos: NOW.nanos + GESTURE_TIMEOUT_NANOS + 1 };
    assert_eq!(run(vec![swipe(-1.0)], false, later), vec![Direction::South]);
    let tick = Event::VerticalScrollTick { delta: number(-1.0) };
    assert_eq!(run(vec![tick], false, later), vec![Direction::South]);
    let other_fingers = Event::VerticalSwipe { delta: number(1.0), fingers: 4 };
    let much_later = Instant { nanos: later.nanos + GESTURE_TIMEOUT_NANOS + 1 };
    assert_eq!(run(vec![other_fingers], false, much_later), vec![]);
    let reversed = SwipeGestureDirection::Reversed;
    assert_eq!(switch_virtual_workspace(number(1.0), reversed), Direction::South);
    assert_eq!(switch_virtual_workspace(number(-1.0), reversed), Direction::North);
    let two = vec![Event::VerticalSwipe { delta: number(1.0), fingers: 2 }];
    let mut quiet = vertical();
    let switched = vertical_swipe_gesture(
        &two, Some(2), false, natural, number(0.15), NOW, &plus, &mut quiet,
    );
    assert_eq!(switched, vec![]);
}
