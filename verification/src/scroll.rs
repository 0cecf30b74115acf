//! Scrolling a strip by touchpad and wheel.
//!
//! A strip that moves has a [`Scrolling`]. Gestures start, move and end it;
//! between them it coasts, snaps to a stop, and comes to rest. Distances and
//! velocities arrive here as numbers; what is decided is which of them apply.
use vstd::prelude::*;

use crate::clock::Instant;
use crate::config::swipe;
use crate::config::swipe::accepted_fingers;
use crate::config::swipe::SwipeGestureDirection;
use crate::events::Event;
use crate::number::Number;

pub mod motion;
pub mod paging;
pub mod viewport;

verus! {

/// The stops that a paging gesture moves between, as strip offsets.
#[derive(Clone, Copy, Debug, PartialEq)]
pub struct PagingGesture {
    /// Where the gesture started.
    pub start_stop: Number,
    /// The stop before it, which has a greater offset.
    pub previous_stop: Option<Number>,
    /// The stop after it, which has a lesser offset.
    pub next_stop: Option<Number>,
    /// How fast the strip moved when it was let go.
    pub release_velocity: Number,
}

/// The motion of a strip.
#[derive(Clone, Copy, Debug, PartialEq)]
pub struct Scrolling {
    pub velocity: Number,
    pub position: Number,
    /// Where the strip is to go, if anywhere.
    pub target_position: Option<Number>,
    /// Whether the strip is to snap once it has settled.
    pub snap_pending: bool,
    pub is_user_swiping: bool,
    /// Whether fingers are on the touchpad, or momentum follows them.
    pub gesture_active: bool,
    pub paging_gesture: Option<PagingGesture>,
    pub last_event: Instant,
}

// ---------------------------------------------------------------------------
// Reading the events
// ---------------------------------------------------------------------------
/// What the touchpad reported of the life of a gesture.
#[derive(Clone, Copy, Debug, PartialEq, Eq, Structural)]
pub struct Lifecycle {
    pub down: bool,
    pub physical_up: bool,
    pub momentum_start: bool,
    pub up: bool,
}

/// What the events of one frame say of a gesture.
#[derive(Debug)]
pub struct GestureInput {
    /// The wheel's deltas, in order.
    pub scroll_deltas: Vec<Number>,
    /// The deltas of swipes with the configured number of fingers, in order.
    pub gesture_deltas: Vec<Number>,
    pub lifecycle: Lifecycle,
}

/// The wheel's delta in an event, if it has one.
pub open spec fn scroll_delta() -> spec_fn(Event) -> Option<Number> {
    |event: Event|
        match event {
            Event::Scroll { delta } => Some(delta),
            _ => None,
        }
}

/// The delta of a swipe with this number of fingers, if an event has one.
pub open spec fn gesture_delta(configured: Option<usize>) -> spec_fn(Event) -> Option<Number> {
    |event: Event|
        match event {
            Event::Swipe { delta, fingers } => if swipe::swiping_fingers(configured) == Some(
                fingers,
            ) {
                Some(delta)
            } else {
                None
            },
            _ => None,
        }
}

/// What the touchpad reports in some events.
pub open spec fn is_lifecycle(events: Seq<Event>, lifecycle: Lifecycle) -> bool {
    &&& lifecycle.down <==> exists|i: int|
        0 <= i < events.len() && (#[trigger] events[i]) is TouchpadDown
    &&& lifecycle.physical_up <==> exists|i: int|
        0 <= i < events.len() && (#[trigger] events[i]) is TouchpadPhysicalUp
    &&& lifecycle.momentum_start <==> exists|i: int|
        0 <= i < events.len() && (#[trigger] events[i]) is TouchpadMomentumStart
    &&& lifecycle.up <==> exists|i: int|
        0 <= i < events.len() && (#[trigger] events[i]) is TouchpadUp
}

/// Reads what the events say of a gesture.
pub fn read_gesture_input(events: &Vec<Event>, configured_fingers: Option<usize>) -> (input:
    GestureInput)
    ensures
        input.scroll_deltas@ == events@.filter_map(scroll_delta()),
        input.gesture_deltas@ == events@.filter_map(gesture_delta(configured_fingers)),
        is_lifecycle(events@, input.lifecycle),
{
    let mut lifecycle = Lifecycle {
        down: false,
        physical_up: false,
        momentum_start: false,
        up: false,
    };
    let mut scroll_deltas: Vec<Number> = Vec::new();
    let mut gesture_deltas: Vec<Number> = Vec::new();
    let ghost by_wheel = scroll_delta();
    let ghost by_fingers = gesture_delta(configured_fingers);
    let mut i: usize = 0;
    assert(events@.take(0).filter_map(by_wheel) =~= Seq::empty());
    assert(events@.take(0).filter_map(by_fingers) =~= Seq::empty());
    while i < events.len()
        invariant
            i <= events.len(),
            by_wheel == scroll_delta(),
            by_fingers == gesture_delta(configured_fingers),
            scroll_deltas@ == events@.take(i as int).filter_map(by_wheel),
            gesture_deltas@ == events@.take(i as int).filter_map(by_fingers),
            lifecycle.down <==> exists|j: int|
                0 <= j < i && (#[trigger] events@[j]) is TouchpadDown,
            lifecycle.physical_up <==> exists|j: int|
                0 <= j < i && (#[trigger] events@[j]) is TouchpadPhysicalUp,
            lifecycle.momentum_start <==> exists|j: int|
                0 <= j < i && (#[trigger] events@[j]) is TouchpadMomentumStart,
            lifecycle.up <==> exists|j: int| 0 <= j < i && (#[trigger] events@[j]) is TouchpadUp,
        decreases events.len() - i,
    {
        proof {
            events@.lemma_filter_map_take_succ(by_wheel, i as int);
            events@.lemma_filter_map_take_succ(by_fingers, i as int);
        }
        match &events[i] {
            Event::TouchpadDown => lifecycle.down = true,
            Event::TouchpadPhysicalUp => lifecycle.physical_up = true,
            Event::TouchpadMomentumStart => lifecycle.momentum_start = true,
            Event::TouchpadUp => lifecycle.up = true,
            Event::Scroll { delta } => scroll_deltas.push(*delta),
            Event::Swipe { delta, fingers } => {
                if let Some(wanted) = accepted_fingers(configured_fingers) {
                    if wanted == *fingers {
                        gesture_deltas.push(*delta);
                    }
                }
            },
            _ => {},
        }
        assert(scroll_deltas@ =~= events@.take(i + 1).filter_map(by_wheel));
        assert(gesture_deltas@ =~= events@.take(i + 1).filter_map(by_fingers));
        i = i + 1;
    }
    assert(events@.take(i as int) =~= events@);
    GestureInput { scroll_deltas, gesture_deltas, lifecycle }
}

// ---------------------------------------------------------------------------
// The life of a gesture
// ---------------------------------------------------------------------------
/// A gesture is under way, or what followed it is not over.
pub open spec fn in_session(scrolling: Option<Scrolling>) -> bool {
    scrolling matches Some(s) && (s.gesture_active || s.is_user_swiping || s.snap_pending
        || s.paging_gesture is Some)
}

/// The strip at the start of a new gesture: it stands, and knows its stops.
pub open spec fn begun(
    s: Scrolling,
    touchpad_down: bool,
    snap_enabled: bool,
    paging_gesture: Option<PagingGesture>,
    now: Instant,
) -> Scrolling {
    Scrolling {
        velocity: Number { bits: 0 },
        position: s.position,
        target_position: None,
        snap_pending: snap_enabled,
        is_user_swiping: true,
        gesture_active: touchpad_down,
        paging_gesture,
        last_event: now,
    }
}

/// Starts a new gesture on a strip that is in motion.
pub fn begin_touchpad_gesture(
    starts_new_gesture: bool,
    touchpad_down: bool,
    snap_enabled: bool,
    paging_gesture: Option<PagingGesture>,
    now: Instant,
    scrolling: &mut Option<Scrolling>,
)
    ensures
        *final(scrolling) == match *old(scrolling) {
            Some(s) => if starts_new_gesture {
                Some(begun(s, touchpad_down, snap_enabled, paging_gesture, now))
            } else {
                Some(s)
            },
            None => None,
        },
{
    if starts_new_gesture {
        if let Some(s) = *scrolling {
            *scrolling =
            Some(
                Scrolling {
                    velocity: Number::zero(),
                    position: s.position,
                    target_position: None,
                    snap_pending: snap_enabled,
                    is_user_swiping: true,
                    gesture_active: touchpad_down,
                    paging_gesture,
                    last_event: now,
                },
            );
        }
    }
}

/// The strip when a gesture goes on that had been let go.
pub open spec fn resumed(s: Scrolling, interrupts_target: bool, now: Instant) -> Scrolling {
    Scrolling {
        target_position: if interrupts_target {
            None
        } else {
            s.target_position
        },
        snap_pending: true,
        is_user_swiping: true,
        gesture_active: true,
        last_event: now,
        ..s
    }
}

/// Goes on with a gesture that had been let go.
pub fn resume_touchpad_gesture(
    resumes_gesture: bool,
    interrupts_target: bool,
    now: Instant,
    scrolling: &mut Option<Scrolling>,
)
    ensures
        *final(scrolling) == match *old(scrolling) {
            Some(s) => if resumes_gesture {
                Some(resumed(s, interrupts_target, now))
            } else {
                Some(s)
            },
            None => None,
        },
{
    if resumes_gesture {
        if let Some(s) = *scrolling {
            let mut next = s;
            if interrupts_target {
                next.target_position = None;
            }
            next.snap_pending = true;
            next.is_user_swiping = true;
            next.gesture_active = true;
            next.last_event = now;
            *scrolling = Some(next);
        }
    }
}

/// The strip when the fingers have left the touchpad: the user counts as
/// swiping until momentum starts or nothing follows for a while.
pub open spec fn lifted(s: Scrolling, now: Instant) -> Scrolling {
    Scrolling { gesture_active: false, is_user_swiping: true, last_event: now, ..s }
}

/// Marks that the fingers have left the touchpad.
pub fn mark_physical_touch_end(physical_up: bool, now: Instant, scrolling: &mut Option<Scrolling>)
    ensures
        *final(scrolling) == match *old(scrolling) {
            Some(s) => if physical_up {
                Some(lifted(s, now))
            } else {
                Some(s)
            },
            None => None,
        },
{
    if physical_up {
        if let Some(s) = *scrolling {
            let mut next = s;
            next.gesture_active = false;
            next.is_user_swiping = true;
            next.last_event = now;
            *scrolling = Some(next);
        }
    }
}

/// The strip when the gesture is over, with its momentum. A paging gesture
/// keeps how fast the strip was let go.
pub open spec fn finished(s: Scrolling, direction: SwipeGestureDirection) -> Scrolling {
    Scrolling {
        paging_gesture: match s.paging_gesture {
            Some(paging) => Some(
                PagingGesture {
                    release_velocity: paging::along(s.velocity, direction),
                    ..paging
                },
            ),
            None => None,
        },
        gesture_active: false,
        is_user_swiping: false,
        ..s
    }
}

/// Ends a gesture.
pub fn finish_touchpad_gesture(
    touchpad_up: bool,
    direction: SwipeGestureDirection,
    scrolling: &mut Option<Scrolling>,
)
    ensures
        *final(scrolling) == match *old(scrolling) {
            Some(s) => if touchpad_up {
                Some(finished(s, direction))
            } else {
                Some(s)
            },
            None => None,
        },
{
    if touchpad_up {
        if let Some(s) = *scrolling {
            let mut next = s;
            if let Some(paging) = s.paging_gesture {
                let mut released = paging;
                released.release_velocity = match direction {
                    SwipeGestureDirection::Natural => s.velocity.negated(),
                    SwipeGestureDirection::Reversed => s.velocity,
                };
                next.paging_gesture = Some(released);
            }
            next.gesture_active = false;
            next.is_user_swiping = false;
            *scrolling = Some(next);
        }
    }
}

// ---------------------------------------------------------------------------
// One frame of a gesture
// ---------------------------------------------------------------------------
/// What one frame has to say of a gesture, as distances on the strip.
#[derive(Clone, Copy, Debug)]
pub struct SwipeInput {
    pub lifecycle: Lifecycle,
    /// How far the wheel scrolled, if it did.
    pub scroll_distance: Option<Number>,
    /// Whether the wheel's deltas add up to something.
    pub scroll_moves: bool,
    /// How far the fingers swiped, if they did.
    pub gesture_distance: Option<Number>,
    /// How fast the fingers swiped; zero if they did not.
    pub new_velocity: Number,
}

/// The settings that a gesture depends on.
#[derive(Clone, Copy, Debug)]
pub struct SwipeSettings {
    pub swipe_paging: bool,
    pub sticky_scroll: bool,
    pub auto_center: bool,
    pub direction: SwipeGestureDirection,
}

impl SwipeSettings {
    /// A strip that has settled is to snap.
    pub open spec fn snaps(self) -> bool {
        self.swipe_paging || self.sticky_scroll || self.auto_center
    }
}

impl SwipeInput {
    /// The strip is to move.
    pub open spec fn moves(self) -> bool {
        self.scroll_distance is Some || self.gesture_distance is Some
    }

    /// There is nothing to react to.
    pub open spec fn is_idle(self) -> bool {
        &&& !self.lifecycle.down && !self.lifecycle.physical_up && !self.lifecycle.momentum_start
            && !self.lifecycle.up
        &&& !self.moves()
    }

    /// A gesture that is under way goes on.
    pub open spec fn resumes(self, scrolling: Option<Scrolling>) -> bool {
        in_session(scrolling) && (self.lifecycle.down || self.lifecycle.momentum_start)
    }

    /// A new gesture starts: fingers come down or the strip is moved while no
    /// gesture is under way. Momentum alone starts none.
    pub open spec fn starts(self, scrolling: Option<Scrolling>) -> bool {
        !in_session(scrolling) && (self.lifecycle.down || self.moves()
            && !self.lifecycle.momentum_start)
    }
}

/// The strip after the touchpad's reports, before it is moved. Fingers that
/// come down on a strip at rest give it a state at once.
pub open spec fn opened(
    input: SwipeInput,
    snaps: bool,
    captured: Option<PagingGesture>,
    rest_position: Number,
    now: Instant,
    scrolling: Option<Scrolling>,
) -> Option<Scrolling> {
    match scrolling {
        Some(s) => {
            let a = if input.starts(scrolling) {
                begun(s, input.lifecycle.down, snaps, captured, now)
            } else {
                s
            };
            let b = if input.lifecycle.physical_up {
                lifted(a, now)
            } else {
                a
            };
            Some(
                if input.resumes(scrolling) {
                    resumed(b, input.lifecycle.down, now)
                } else {
                    b
                },
            )
        },
        None => if input.lifecycle.down && !input.moves() {
            Some(
                Scrolling {
                    velocity: Number { bits: 0 },
                    position: rest_position,
                    target_position: None,
                    snap_pending: snaps,
                    is_user_swiping: true,
                    gesture_active: true,
                    paging_gesture: captured,
                    last_event: now,
                },
            )
        } else {
            None
        },
    }
}

/// A strip in motion, moved by one frame: fingers move it at once and make it
/// coast, the wheel moves where it is to go.
pub open spec fn moved(
    input: SwipeInput,
    snaps: bool,
    now: Instant,
    plus: spec_fn(Number, Number) -> Number,
    blend: spec_fn(Number) -> Number,
    s: Scrolling,
) -> Scrolling {
    let position = match input.gesture_distance {
        Some(distance) => plus(s.position, distance),
        None => s.position,
    };
    let target = if input.gesture_distance is Some {
        None
    } else {
        s.target_position
    };
    Scrolling {
        velocity: if input.gesture_distance is Some {
            blend(s.velocity)
        } else {
            Number { bits: 0 }
        },
        position,
        target_position: match input.scroll_distance {
            Some(distance) => if input.scroll_moves {
                let base = match target {
                    Some(t) => if s.is_user_swiping {
                        t
                    } else {
                        position
                    },
                    None => position,
                };
                Some(plus(base, distance))
            } else {
                target
            },
            None => target,
        },
        snap_pending: snaps,
        is_user_swiping: true,
        last_event: now,
        ..s
    }
}

/// A strip at rest, set in motion by one frame.
pub open spec fn set_in_motion(
    input: SwipeInput,
    snaps: bool,
    captured: Option<PagingGesture>,
    rest_position: Number,
    now: Instant,
    plus: spec_fn(Number, Number) -> Number,
) -> Scrolling {
    let position = match input.gesture_distance {
        Some(distance) => plus(rest_position, distance),
        None => rest_position,
    };
    Scrolling {
        velocity: input.new_velocity,
        position,
        target_position: match input.scroll_distance {
            Some(distance) => if input.scroll_moves {
                Some(plus(position, distance))
            } else {
                None
            },
            None => None,
        },
        snap_pending: snaps,
        is_user_swiping: !input.lifecycle.up,
        gesture_active: input.lifecycle.down && !input.lifecycle.up,
        paging_gesture: captured,
        last_event: now,
    }
}

/// The stops that a gesture starts with: those in reach, where paging is on
/// and a new gesture starts.
pub open spec fn captured_stops(
    input: SwipeInput,
    settings: SwipeSettings,
    candidate: Option<PagingGesture>,
    scrolling: Option<Scrolling>,
) -> Option<PagingGesture> {
    if settings.swipe_paging && input.starts(scrolling) {
        candidate
    } else {
        None
    }
}

/// The strip after one frame of a gesture.
pub open spec fn swiped(
    input: SwipeInput,
    settings: SwipeSettings,
    candidate: Option<PagingGesture>,
    rest_position: Number,
    now: Instant,
    plus: spec_fn(Number, Number) -> Number,
    blend: spec_fn(Number) -> Number,
    scrolling: Option<Scrolling>,
) -> Option<Scrolling> {
    let captured = captured_stops(input, settings, candidate, scrolling);
    let after_open = opened(input, settings.snaps(), captured, rest_position, now, scrolling);
    if input.is_idle() {
        scrolling
    } else if scrolling is None {
        if input.moves() {
            Some(
                paging::constrained(
                    set_in_motion(input, settings.snaps(), captured, rest_position, now, plus),
                    settings.direction,
                ),
            )
        } else {
            after_open
        }
    } else {
        let after_move = if input.moves() {
            paging::constrained(
                moved(input, settings.snaps(), now, plus, blend, after_open->0),
                settings.direction,
            )
        } else {
            after_open->0
        };
        Some(
            if input.lifecycle.up {
                finished(after_move, settings.direction)
            } else {
                after_move
            },
        )
    }
}

/// The function adds as `sum` does.
pub open spec fn adds_as<A: Fn(Number, Number) -> Number>(
    plus: A,
    sum: spec_fn(Number, Number) -> Number,
) -> bool {
    &&& forall|a: Number, b: Number| #[trigger] call_requires(plus, (a, b))
    &&& forall|a: Number, b: Number, x: Number| #[trigger]
        call_ensures(plus, (a, b), x) ==> x == sum(a, b)
}

/// An addition that answers each pair of numbers in one way.
pub open spec fn adds<A: Fn(Number, Number) -> Number>(plus: A) -> bool {
    exists|sum: spec_fn(Number, Number) -> Number| adds_as(plus, sum)
}

/// The function smooths as `smoothed` does.
pub open spec fn smooths_as<B: Fn(Number) -> Number>(
    blend: B,
    smoothed: spec_fn(Number) -> Number,
) -> bool {
    &&& forall|a: Number| #[trigger] call_requires(blend, (a,))
    &&& forall|a: Number, x: Number| #[trigger] call_ensures(blend, (a,), x) ==> x == smoothed(a)
}

/// A smoothing that answers each number in one way.
pub open spec fn smooths<B: Fn(Number) -> Number>(blend: B) -> bool {
    exists|smoothed: spec_fn(Number) -> Number| smooths_as(blend, smoothed)
}

pub(crate) fn total<A: Fn(Number, Number) -> Number>(plus: &A, a: Number, b: Number) -> (x: Number)
    requires
        adds(*plus),
    ensures
        forall|sum: spec_fn(Number, Number) -> Number| #[trigger]
            adds_as(*plus, sum) ==> x == sum(a, b),
{
    plus(a, b)
}

fn smooth<B: Fn(Number) -> Number>(blend: &B, a: Number) -> (x: Number)
    requires
        smooths(*blend),
    ensures
        forall|smoothed: spec_fn(Number) -> Number| #[trigger]
            smooths_as(*blend, smoothed) ==> x == smoothed(a),
{
    blend(a)
}

/// The stops of a strip's gesture, if it has one, are in order.
pub open spec fn stops_ordered(paging_gesture: Option<PagingGesture>) -> bool {
    paging_gesture matches Some(paging) ==> paging.ordered()
}

fn in_session_now(scrolling: &Option<Scrolling>) -> (active: bool)
    ensures
        active == in_session(*scrolling),
{
    match scrolling {
        Some(s) => s.gesture_active || s.is_user_swiping || s.snap_pending
            || s.paging_gesture.is_some(),
        None => false,
    }
}

/// Takes one frame of a gesture. `candidate` is the gesture that would start
/// at the stop nearest to the strip, `rest_position` where the strip is if it
/// is not in motion; `plus` adds numbers, and `blend` smooths a velocity with
/// that of the fingers.
pub fn swipe_gesture<A: Fn(Number, Number) -> Number, B: Fn(Number) -> Number>(
    input: &SwipeInput,
    settings: &SwipeSettings,
    candidate: Option<PagingGesture>,
    rest_position: Number,
    now: Instant,
    plus: &A,
    blend: &B,
    scrolling: &mut Option<Scrolling>,
)
    requires
        adds(*plus),
        smooths(*blend),
        stops_ordered(candidate),
        *old(scrolling) matches Some(s) ==> stops_ordered(s.paging_gesture),
    ensures
        forall|
            sum: spec_fn(Number, Number) -> Number,
            smoothed: spec_fn(Number) -> Number,
        | #[trigger]
            adds_as(*plus, sum) && #[trigger] smooths_as(*blend, smoothed) ==> *final(scrolling)
                == swiped(
                *input,
                *settings,
                candidate,
                rest_position,
                now,
                sum,
                smoothed,
                *old(scrolling),
            ),
{
    let down = input.lifecycle.down;
    let moves = input.scroll_distance.is_some() || input.gesture_distance.is_some();
    if !(down || input.lifecycle.physical_up || input.lifecycle.momentum_start
        || input.lifecycle.up) && !moves {
        return ;
    }
    let active = in_session_now(scrolling);
    let resumes = active && (down || input.lifecycle.momentum_start);
    let starts = !active && (down || moves && !input.lifecycle.momentum_start);
    let snaps = settings.swipe_paging || settings.sticky_scroll || settings.auto_center;
    let captured = if settings.swipe_paging && starts {
        candidate
    } else {
        None
    };
    let was_moving = scrolling.is_some();
    begin_touchpad_gesture(starts, down, snaps, captured, now, scrolling);
    mark_physical_touch_end(input.lifecycle.physical_up, now, scrolling);
    resume_touchpad_gesture(resumes, down, now, scrolling);
    if !was_moving {
        if moves {
            let position = match input.gesture_distance {
                Some(distance) => total(plus, rest_position, distance),
                None => rest_position,
            };
            let target_position = match input.scroll_distance {
                Some(distance) => if input.scroll_moves {
                    Some(total(plus, position, distance))
                } else {
                    None
                },
                None => None,
            };
            let mut new = Scrolling {
                velocity: input.new_velocity,
                position,
                target_position,
                snap_pending: snaps,
                is_user_swiping: !input.lifecycle.up,
                gesture_active: down && !input.lifecycle.up,
                paging_gesture: captured,
                last_event: now,
            };
            paging::constrain_motion(&mut new, settings.direction);
            *scrolling = Some(new);
        } else if down {
            *scrolling =
            Some(
                Scrolling {
                    velocity: Number::zero(),
                    position: rest_position,
                    target_position: None,
                    snap_pending: snaps,
                    is_user_swiping: true,
                    gesture_active: true,
                    paging_gesture: captured,
                    last_event: now,
                },
            );
        }
        return ;
    }
    if moves {
        if let Some(s) = *scrolling {
            let mut next = s;
            next.velocity =
            match input.gesture_distance {
                Some(_) => smooth(blend, s.velocity),
                None => Number::zero(),
            };
            next.is_user_swiping = true;
            next.snap_pending = snaps;
            next.last_event = now;
            if let Some(distance) = input.gesture_distance {
                next.target_position = None;
                next.position = total(plus, s.position, distance);
            }
            if let Some(distance) = input.scroll_distance {
                if input.scroll_moves {
                    if !s.is_user_swiping {
                        next.target_position = None;
                    }
                    let base = match next.target_position {
                        Some(target) => target,
                        None => next.position,
                    };
                    next.target_position = Some(total(plus, base, distance));
                }
            }
            paging::constrain_motion(&mut next, settings.direction);
            *scrolling = Some(next);
        }
    }
    finish_touchpad_gesture(input.lifecycle.up, settings.direction, scrolling);
}

/// Where momentum starts in the frame in which the fingers leave, the gesture
/// goes on: momentum wins over the end of the touch.
pub proof fn law_momentum_wins_over_physical_end(
    input: SwipeInput,
    settings: SwipeSettings,
    candidate: Option<PagingGesture>,
    rest_position: Number,
    now: Instant,
    plus: spec_fn(Number, Number) -> Number,
    blend: spec_fn(Number) -> Number,
    scrolling: Scrolling,
)
    requires
        input.lifecycle.physical_up,
        input.lifecycle.momentum_start,
        !input.lifecycle.up,
        in_session(Some(scrolling)),
    ensures
        ({
            let after = swiped(
                input,
                settings,
                candidate,
                rest_position,
                now,
                plus,
                blend,
                Some(scrolling),
            );
            &&& after is Some
            &&& after->0.gesture_active
            &&& after->0.is_user_swiping
        }),
{
}

/// A gesture that is under way keeps the stops that it started with, whatever
/// the touchpad reports next; only how fast it was let go may be added.
pub proof fn law_session_keeps_its_stops(
    input: SwipeInput,
    settings: SwipeSettings,
    candidate: Option<PagingGesture>,
    rest_position: Number,
    now: Instant,
    plus: spec_fn(Number, Number) -> Number,
    blend: spec_fn(Number) -> Number,
    scrolling: Scrolling,
)
    requires
        in_session(Some(scrolling)),
    ensures
        ({
            let after = swiped(
                input,
                settings,
                candidate,
                rest_position,
                now,
                plus,
                blend,
                Some(scrolling),
            );
            &&& after is Some
            &&& after->0.paging_gesture is Some <==> scrolling.paging_gesture is Some
            &&& scrolling.paging_gesture matches Some(paging) ==> after->0.paging_gesture->0 == (
            PagingGesture {
                release_velocity: after->0.paging_gesture->0.release_velocity,
                ..paging
            })
        }),
{
}

/// Fingers that come down on a strip at rest give it a gesture at once, before
/// anything moves.
pub proof fn law_touch_creates_state(
    input: SwipeInput,
    settings: SwipeSettings,
    candidate: Option<PagingGesture>,
    rest_position: Number,
    now: Instant,
    plus: spec_fn(Number, Number) -> Number,
    blend: spec_fn(Number) -> Number,
)
    requires
        input.lifecycle.down,
        !input.moves(),
    ensures
        ({
            let after = swiped(
                input,
                settings,
                candidate,
                rest_position,
                now,
                plus,
                blend,
                None,
            );
            &&& after is Some
            &&& after->0.is_user_swiping
            &&& after->0.gesture_active
            &&& after->0.position == rest_position
            &&& settings.swipe_paging ==> after->0.paging_gesture == candidate
        }),
{
}

} // verus!
