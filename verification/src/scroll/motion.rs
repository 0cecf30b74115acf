//! What a strip does by itself between gestures, and vertical swipes.
use vstd::prelude::*;

use crate::clock::Instant;
use crate::commands::Direction;
use crate::config::swipe;
use crate::config::swipe::accepted_fingers;
use crate::config::swipe::SwipeGestureDirection;
use crate::events::Event;
use crate::number::Number;
use crate::scroll;
use crate::scroll::paging;
use crate::scroll::Scrolling;

verus! {

/// Fingers that have not been heard of for longer than this, in nanoseconds,
/// have been lifted: fifty milliseconds.
pub const FINGER_LIFT_NANOS: u64 = 50_000_000;

/// A vertical gesture that has not gone on for longer than this, in
/// nanoseconds, is over: a hundred and fifty milliseconds.
pub const GESTURE_TIMEOUT_NANOS: u64 = 150_000_000;

/// What becomes of a strip whose gesture may have timed out.
#[derive(Clone, Copy, Debug, PartialEq, Eq, Structural)]
pub enum Timeout {
    /// The gesture goes on.
    Active,
    /// The swiping is over; the motion may be dropped if `remove` says so, and
    /// the pointer is to be looked at again.
    Ended { remove: bool },
}

/// The fingers are not on the touchpad and have not been heard of for a while.
pub open spec fn has_timed_out(scroll: Scrolling, now: Instant) -> bool {
    !scroll.gesture_active && now.spec_since(scroll.last_event) > FINGER_LIFT_NANOS
}

/// The strip once it has been asked whether the gesture is over, and the answer.
pub open spec fn timed_out(scroll: Scrolling, speed: Number, now: Instant) -> (Scrolling, Timeout) {
    if has_timed_out(scroll, now) {
        (
            Scrolling { is_user_swiping: false, ..scroll },
            Timeout::Ended {
                remove: speed.below(Number { bits: 0x4014_0000_0000_0000 })
                    && scroll.target_position is None && !scroll.snap_pending,
            },
        )
    } else {
        (scroll, Timeout::Active)
    }
}

/// Ends the swiping of a strip whose fingers have been lifted. `speed` is how
/// far the strip would move in this frame; below five points, with nowhere to
/// go and nothing to snap to, the motion is over.
pub fn swiping_timeout(scroll: &mut Scrolling, speed: Number, now: Instant) -> (timeout: Timeout)
    ensures
        (*final(scroll), timeout) == timed_out(*old(scroll), speed, now),
{
    if scroll.gesture_active || now.since(scroll.last_event).nanos <= FINGER_LIFT_NANOS {
        return Timeout::Active;
    }
    scroll.is_user_swiping = false;
    let remove = speed.less_than(Number { bits: 0x4014_0000_0000_0000 })
        && scroll.target_position.is_none() && !scroll.snap_pending;
    Timeout::Ended { remove }
}

/// Fingers on the touchpad are not timed out, however long they rest.
pub proof fn law_contact_does_not_time_out(scroll: Scrolling, now: Instant)
    requires
        scroll.gesture_active,
    ensures
        !has_timed_out(scroll, now),
{
}

/// The velocity above which a strip coasts: one thousandth.
pub open spec fn coasts(velocity: Number) -> bool {
    (Number { bits: 0x3F50_624D_D2F1_A9FC }).below(velocity.spec_abs())
}

/// The strip once it has lost speed.
pub open spec fn slowed(scroll: Scrolling, decayed: Number) -> Scrolling {
    if scroll.is_user_swiping {
        scroll
    } else {
        Scrolling {
            velocity: if coasts(scroll.velocity) {
                decayed
            } else {
                Number { bits: 0 }
            },
            ..scroll
        }
    }
}

/// Slows a strip that nobody swipes down to `decayed`, or stops it where it is
/// slow already.
pub fn apply_inertia(scroll: &mut Scrolling, decayed: Number)
    ensures
        *final(scroll) == slowed(*old(scroll), decayed),
{
    if scroll.is_user_swiping {
        return ;
    }
    let slow = Number { bits: 0x3F50_624D_D2F1_A9FC };
    if slow.less_than(scroll.velocity.abs()) {
        scroll.velocity = decayed;
    } else {
        scroll.velocity = Number::zero();
    }
}

/// The strip after it moved by itself for one frame: toward where it is to go,
/// `approached` being the offset it reaches and whether it is there; else by
/// its velocity, to `coasted`.
pub open spec fn integrated(
    scroll: Scrolling,
    approached: (Number, bool),
    coasted: Number,
    direction: SwipeGestureDirection,
) -> Scrolling {
    if scroll.target_position is Some {
        Scrolling {
            position: approached.0,
            target_position: if approached.1 {
                None
            } else {
                scroll.target_position
            },
            paging_gesture: if approached.1 && !scroll.snap_pending {
                None
            } else {
                scroll.paging_gesture
            },
            ..scroll
        }
    } else if (Number { bits: 0x3F1A_36E2_EB1C_432D }).below(scroll.velocity.spec_abs()) {
        paging::constrained(Scrolling { position: coasted, ..scroll }, direction)
    } else {
        scroll
    }
}

/// Moves a strip by itself for one frame.
pub fn scrolling_integrator(
    scroll: &mut Scrolling,
    approached: (Number, bool),
    coasted: Number,
    direction: SwipeGestureDirection,
)
    requires
        scroll::stops_ordered(old(scroll).paging_gesture),
    ensures
        *final(scroll) == integrated(*old(scroll), approached, coasted, direction),
{
    if scroll.target_position.is_some() {
        scroll.position = approached.0;
        if approached.1 {
            scroll.target_position = None;
            if !scroll.snap_pending {
                scroll.paging_gesture = None;
            }
        }
        return ;
    }
    let still = Number { bits: 0x3F1A_36E2_EB1C_432D };
    if still.less_than(scroll.velocity.abs()) {
        scroll.position = coasted;
        paging::constrain_motion(scroll, direction);
    }
}

/// What becomes of a strip that was let go and coasts.
#[derive(Clone, Copy, Debug, PartialEq, Eq, Structural)]
pub struct PostSwipe {
    /// The pointer is to be looked at again, so that the focus follows it.
    pub refocus: bool,
    /// The motion is over.
    pub stop: bool,
}

/// The motion of a strip at this speed is over: below a hundred points.
pub open spec fn is_over(speed: Number) -> bool {
    speed.below(Number { bits: 0x4059_0000_0000_0000 })
}

/// The strip after a swipe, and what follows.
pub open spec fn after_swipe(
    scroll: Scrolling,
    speed: Number,
    focus_speed: Number,
    focus_follows_mouse: bool,
    decayed: Number,
) -> (Scrolling, Option<PostSwipe>) {
    if scroll.is_user_swiping {
        (scroll, None)
    } else {
        (
            if is_over(speed) {
                scroll
            } else {
                Scrolling { velocity: decayed, ..scroll }
            },
            Some(
                PostSwipe {
                    refocus: speed.below(focus_speed) && focus_follows_mouse,
                    stop: is_over(speed),
                },
            ),
        )
    }
}

/// Decides what becomes of a strip that was let go. `speed` is how fast it
/// moves in points, `focus_speed` the speed below which the focus follows the
/// mouse again. A motion that is not over slows down to `decayed`.
pub fn apply_scroll_physics_post_swipe(
    scroll: &mut Scrolling,
    speed: Number,
    focus_speed: Number,
    focus_follows_mouse: bool,
    decayed: Number,
) -> (outcome: Option<PostSwipe>)
    ensures
        (*final(scroll), outcome) == after_swipe(
            *old(scroll),
            speed,
            focus_speed,
            focus_follows_mouse,
            decayed,
        ),
{
    if scroll.is_user_swiping {
        return None;
    }
    let refocus = speed.less_than(focus_speed) && focus_follows_mouse;
    let stop = speed.less_than(Number { bits: 0x4059_0000_0000_0000 });
    if !stop {
        scroll.velocity = decayed;
    }
    Some(PostSwipe { refocus, stop })
}

// ---------------------------------------------------------------------------
// Vertical swipes
// ---------------------------------------------------------------------------
/// A vertical gesture so far.
#[derive(Clone, Copy, Debug)]
pub struct VerticalGestureState {
    pub accumulated: Number,
    pub last_event: Option<Instant>,
    /// The gesture has switched the workspace, and does so once only.
    pub fired: bool,
}

/// The workspace to switch to when fingers go up or down: natural swiping goes
/// against them.
pub open spec fn switch_direction(delta: Number, direction: SwipeGestureDirection) -> Direction {
    let down = (Number { bits: 0 }).below(delta);
    match (direction, down) {
        (SwipeGestureDirection::Natural, true) => Direction::North,
        (SwipeGestureDirection::Natural, false) => Direction::South,
        (SwipeGestureDirection::Reversed, true) => Direction::South,
        (SwipeGestureDirection::Reversed, false) => Direction::North,
    }
}

/// The workspace to switch to when fingers go up or down.
pub fn switch_virtual_workspace(delta: Number, direction: SwipeGestureDirection) -> (to: Direction)
    ensures
        to == switch_direction(delta, direction),
{
    let down = Number::zero().less_than(delta);
    match direction {
        SwipeGestureDirection::Natural => if down {
            Direction::North
        } else {
            Direction::South
        },
        SwipeGestureDirection::Reversed => if down {
            Direction::South
        } else {
            Direction::North
        },
    }
}

/// A gesture that timed out starts anew.
pub open spec fn refreshed(state: VerticalGestureState, now: Instant) -> VerticalGestureState {
    if state.last_event is Some && now.spec_since(state.last_event->0) > GESTURE_TIMEOUT_NANOS {
        VerticalGestureState { accumulated: Number { bits: 0 }, fired: false, ..state }
    } else {
        state
    }
}

/// The gesture after an event: swipes with the configured fingers add up until
/// the gesture has fired.
pub open spec fn tallied(
    state: VerticalGestureState,
    event: Event,
    configured: Option<usize>,
    plus: spec_fn(Number, Number) -> Number,
    now: Instant,
) -> VerticalGestureState {
    match event {
        Event::VerticalSwipe { delta, fingers } => if swipe::swiping_fingers(configured) == Some(
            fingers,
        ) {
            VerticalGestureState {
                accumulated: if state.fired {
                    state.accumulated
                } else {
                    plus(state.accumulated, delta)
                },
                last_event: Some(now),
                ..state
            }
        } else {
            state
        },
        _ => state,
    }
}

/// The gesture after the events of a frame.
pub open spec fn tallied_all(
    state: VerticalGestureState,
    events: Seq<Event>,
    configured: Option<usize>,
    plus: spec_fn(Number, Number) -> Number,
    now: Instant,
) -> VerticalGestureState
    decreases events.len(),
{
    if events.len() == 0 {
        state
    } else {
        tallied(
            tallied_all(state, events.drop_last(), configured, plus, now),
            events.last(),
            configured,
            plus,
            now,
        )
    }
}

/// The switches that the ticks of the wheel ask for, one each.
pub open spec fn tick_switch(direction: SwipeGestureDirection) -> spec_fn(Event) -> Option<
    Direction,
> {
    |event: Event|
        match event {
            Event::VerticalScrollTick { delta } => Some(switch_direction(delta, direction)),
            _ => None,
        }
}

/// The switches of a frame and the gesture after it: one that has gone far enough fires
/// once, behind the ticks of the wheel.
pub open spec fn discharged(
    ticks: Seq<Direction>,
    full: VerticalGestureState,
    threshold: Number,
    direction: SwipeGestureDirection,
) -> (Seq<Direction>, VerticalGestureState) {
    if threshold.at_most(full.accumulated.spec_abs()) {
        (
            ticks.push(switch_direction(full.accumulated, direction)),
            VerticalGestureState { accumulated: Number { bits: 0 }, fired: true, ..full },
        )
    } else {
        (ticks, full)
    }
}

/// Takes the vertical gestures of a frame, and returns the switches of the
/// workspace that they ask for: one for each tick of the wheel, and one where a
/// swipe reaches `threshold`, after which it does not fire again. In full
/// screen nothing happens.
pub fn vertical_swipe_gesture<A: Fn(Number, Number) -> Number>(
    events: &Vec<Event>,
    configured_fingers: Option<usize>,
    fullscreen: bool,
    direction: SwipeGestureDirection,
    threshold: Number,
    now: Instant,
    plus: &A,
    state: &mut VerticalGestureState,
) -> (switches: Vec<Direction>)
    requires
        scroll::adds(*plus),
    ensures
        fullscreen ==> switches@ == Seq::<Direction>::empty() && *final(state) == *old(state),
        !fullscreen ==> forall|sum: spec_fn(Number, Number) -> Number| #[trigger]
            scroll::adds_as(*plus, sum) ==> (switches@, *final(state)) == discharged(
                events@.filter_map(tick_switch(direction)),
                tallied_all(
                    refreshed(*old(state), now),
                    events@,
                    configured_fingers,
                    sum,
                    now,
                ),
                threshold,
                direction,
            ),
{
    let mut switches: Vec<Direction> = Vec::new();
    if fullscreen {
        return switches;
    }
    if let Some(last) = state.last_event {
        if now.since(last).nanos > GESTURE_TIMEOUT_NANOS {
            state.accumulated = Number::zero();
            state.fired = false;
        }
    }
    let ghost start = *state;
    let ghost tick = tick_switch(direction);
    let mut i: usize = 0;
    assert(events@.take(0).filter_map(tick) =~= Seq::empty());
    while i < events.len()
        invariant
            i <= events.len(),
            scroll::adds(*plus),
            tick == tick_switch(direction),
            switches@ == events@.take(i as int).filter_map(tick),
            forall|sum: spec_fn(Number, Number) -> Number| #[trigger]
                scroll::adds_as(*plus, sum) ==> *state == tallied_all(
                    start,
                    events@.take(i as int),
                    configured_fingers,
                    sum,
                    now,
                ),
        decreases events.len() - i,
    {
        proof {
            events@.lemma_filter_map_take_succ(tick, i as int);
            assert(events@.take(i + 1).drop_last() =~= events@.take(i as int));
        }
        match &events[i] {
            Event::VerticalScrollTick { delta } => {
                switches.push(switch_virtual_workspace(*delta, direction));
            },
            Event::VerticalSwipe { delta, fingers } => {
                if let Some(wanted) = accepted_fingers(configured_fingers) {
                    if wanted == *fingers {
                        state.last_event = Some(now);
                        if !state.fired {
                            state.accumulated = scroll::total(plus, state.accumulated, *delta);
                        }
                    }
                }
            },
            _ => {},
        }
        assert(switches@ =~= events@.take(i + 1).filter_map(tick));
        i = i + 1;
    }
    assert(events@.take(i as int) =~= events@);
    if threshold.no_more_than(state.accumulated.abs()) {
        switches.push(switch_virtual_workspace(state.accumulated, direction));
        state.accumulated = Number::zero();
        state.fired = true;
    }
    switches
}

} // verus!
