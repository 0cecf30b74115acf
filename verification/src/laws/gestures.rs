//! Swipes, what follows when fingers leave the touchpad, and where a strip snaps to.
use vstd::prelude::*;

use crate::clock::Instant;
use crate::commands::Direction;
use crate::config::swipe;
use crate::config::swipe::SwipeGestureDirection;
use crate::events::Event;
use crate::geometry::IRect;
use crate::number::Number;
use crate::scroll;
use crate::scroll::motion;
use crate::scroll::motion::{PostSwipe, Timeout, VerticalGestureState};
use crate::scroll::paging;
use crate::scroll::paging::{Hop, Release};
use crate::scroll::viewport;
use crate::scroll::viewport::{ColumnMetrics, SnapMode, SnapScene};
use crate::scroll::{Lifecycle, PagingGesture, Scrolling, SwipeInput, SwipeSettings};
use crate::search;

verus! {

// ---------------------------------------------------------------------------
// Reading the touchpad
// ---------------------------------------------------------------------------
/// Each turn of the wheel and each swipe with the right number of fingers counts, in
/// order; swipes with another number do not.
pub proof fn law_swipes_are_read_in_order(
    events: Seq<Event>,
    configured: usize,
    delta: Number,
    fingers: usize,
)
    requires
        configured >= 3,
    ensures
        ({
            let wheel = Event::Scroll { delta };
            let swipe = Event::Swipe { delta, fingers };
            let turns = events.filter_map(scroll::scroll_delta());
            let swipes = events.filter_map(scroll::gesture_delta(Some(configured)));
            &&& events.push(wheel).filter_map(scroll::scroll_delta()) == turns.push(delta)
            &&& events.push(swipe).filter_map(scroll::scroll_delta()) == turns
            &&& events.push(wheel).filter_map(scroll::gesture_delta(Some(configured))) == swipes
            &&& events.push(swipe).filter_map(scroll::gesture_delta(Some(configured)))
                == if fingers == configured {
                swipes.push(delta)
            } else {
                swipes
            }
            &&& events.push(swipe).filter_map(scroll::gesture_delta(None)) == events.filter_map(
                scroll::gesture_delta(None),
            )
        }),
{
    let wheel = Event::Scroll { delta };
    let swipe = Event::Swipe { delta, fingers };
    search::lemma_filter_map_push(events, scroll::scroll_delta(), wheel);
    search::lemma_filter_map_push(events, scroll::scroll_delta(), swipe);
    search::lemma_filter_map_push(events, scroll::gesture_delta(Some(configured)), wheel);
    search::lemma_filter_map_push(events, scroll::gesture_delta(Some(configured)), swipe);
    search::lemma_filter_map_push(events, scroll::gesture_delta(None), swipe);
}

/// Fewer than three fingers do not swipe.
pub proof fn law_two_fingers_do_not_swipe(fingers: usize)
    ensures
        swipe::swiping_fingers(Some(fingers)) == if fingers < 3 {
            None::<usize>
        } else {
            Some(fingers)
        },
        swipe::swiping_fingers(None) is None,
{
}

/// What the touchpad reports in one event is what the event says.
pub proof fn law_touchpad_reports_are_read(event: Event, lifecycle: Lifecycle)
    requires
        scroll::is_lifecycle(seq![event], lifecycle),
    ensures
        lifecycle.down <==> event is TouchpadDown,
        lifecycle.up <==> event is TouchpadUp,
        lifecycle.physical_up <==> event is TouchpadPhysicalUp,
        lifecycle.momentum_start <==> event is TouchpadMomentumStart,
{
    let events = seq![event];
    assert(events[0] == event);
}

// ---------------------------------------------------------------------------
// Swiping
// ---------------------------------------------------------------------------
/// Nothing happens while nothing is reported.
pub proof fn law_idle_touchpad_changes_nothing(
    input: SwipeInput,
    settings: SwipeSettings,
    candidate: Option<PagingGesture>,
    rest: Number,
    now: Instant,
    plus: spec_fn(Number, Number) -> Number,
    blend: spec_fn(Number) -> Number,
    scrolling: Option<Scrolling>,
)
    requires
        !input.lifecycle.down && !input.lifecycle.up,
        !input.lifecycle.physical_up && !input.lifecycle.momentum_start,
        input.scroll_distance is None && input.gesture_distance is None,
    ensures
        scroll::swiped(input, settings, candidate, rest, now, plus, blend, scrolling) == scrolling,
{
}

/// Fingers that move a strip in motion move it by as much, make it coast, and call off
/// where it was to go.
pub proof fn law_fingers_move_the_strip(
    input: SwipeInput,
    settings: SwipeSettings,
    candidate: Option<PagingGesture>,
    rest: Number,
    now: Instant,
    plus: spec_fn(Number, Number) -> Number,
    blend: spec_fn(Number) -> Number,
    s: Scrolling,
)
    requires
        !input.lifecycle.down && !input.lifecycle.up,
        !input.lifecycle.physical_up && !input.lifecycle.momentum_start,
        input.gesture_distance is Some,
        input.scroll_distance is None,
        s.gesture_active,
        s.paging_gesture is None,
    ensures
        ({
            let after = scroll::swiped(
                input,
                settings,
                candidate,
                rest,
                now,
                plus,
                blend,
                Some(s),
            );
            &&& after is Some
            &&& after->0.position == plus(s.position, input.gesture_distance->0)
            &&& after->0.velocity == blend(s.velocity)
            &&& after->0.target_position is None
            &&& after->0.is_user_swiping
            &&& after->0.gesture_active
            &&& after->0.last_event == now
            &&& after->0.snap_pending == (settings.swipe_paging || settings.sticky_scroll
                || settings.auto_center)
        }),
{
}

/// The wheel moves where a strip is to go, from there or else from where it is, and the
/// strip itself stays.
pub proof fn law_wheel_moves_the_target(
    input: SwipeInput,
    settings: SwipeSettings,
    candidate: Option<PagingGesture>,
    rest: Number,
    now: Instant,
    plus: spec_fn(Number, Number) -> Number,
    blend: spec_fn(Number) -> Number,
    s: Scrolling,
)
    requires
        !input.lifecycle.down && !input.lifecycle.up,
        !input.lifecycle.physical_up && !input.lifecycle.momentum_start,
        input.gesture_distance is None,
        input.scroll_distance is Some,
        input.scroll_moves,
        s.is_user_swiping,
        s.paging_gesture is None,
    ensures
        ({
            let after = scroll::swiped(
                input,
                settings,
                candidate,
                rest,
                now,
                plus,
                blend,
                Some(s),
            );
            let from = if s.target_position is Some {
                s.target_position->0
            } else {
                s.position
            };
            &&& after is Some
            &&& after->0.position == s.position
            &&& after->0.target_position == Some(plus(from, input.scroll_distance->0))
            &&& after->0.velocity.bits == 0
        }),
{
}

/// A strip at rest that is moved starts from where it rests.
pub proof fn law_strip_at_rest_is_set_in_motion(
    input: SwipeInput,
    settings: SwipeSettings,
    candidate: Option<PagingGesture>,
    rest: Number,
    now: Instant,
    plus: spec_fn(Number, Number) -> Number,
    blend: spec_fn(Number) -> Number,
)
    requires
        !settings.swipe_paging,
        input.gesture_distance is Some,
        input.scroll_distance is None,
    ensures
        ({
            let after = scroll::swiped(
                input,
                settings,
                candidate,
                rest,
                now,
                plus,
                blend,
                None,
            );
            &&& after is Some
            &&& after->0.position == plus(rest, input.gesture_distance->0)
            &&& after->0.velocity == input.new_velocity
            &&& after->0.target_position is None
            &&& after->0.paging_gesture is None
            &&& after->0.is_user_swiping <==> !input.lifecycle.up
            &&& after->0.gesture_active <==> input.lifecycle.down && !input.lifecycle.up
        }),
{
}

/// Where the gesture is over the user swipes no more; where only the fingers have left
/// the touchpad the swipe may go on by its momentum.
pub proof fn law_gesture_ends(
    input: SwipeInput,
    settings: SwipeSettings,
    candidate: Option<PagingGesture>,
    rest: Number,
    now: Instant,
    plus: spec_fn(Number, Number) -> Number,
    blend: spec_fn(Number) -> Number,
    s: Scrolling,
)
    requires
        s.gesture_active,
        !input.lifecycle.down && !input.lifecycle.momentum_start,
    ensures
        ({
            let after = scroll::swiped(
                input,
                settings,
                candidate,
                rest,
                now,
                plus,
                blend,
                Some(s),
            );
            &&& after is Some
            &&& input.lifecycle.up ==> !after->0.is_user_swiping && !after->0.gesture_active
            &&& !input.lifecycle.up && input.lifecycle.physical_up ==> after->0.is_user_swiping
                && !after->0.gesture_active && after->0.last_event == now
            &&& !input.lifecycle.up && !input.lifecycle.physical_up ==> after->0.gesture_active
        }),
{
}

/// Fingers that come down on a strip that coasts stop it, and where paging is on they
/// take the stops in reach.
pub proof fn law_touch_stops_the_strip(
    input: SwipeInput,
    settings: SwipeSettings,
    candidate: Option<PagingGesture>,
    rest: Number,
    now: Instant,
    plus: spec_fn(Number, Number) -> Number,
    blend: spec_fn(Number) -> Number,
    s: Scrolling,
)
    requires
        !s.gesture_active && !s.is_user_swiping && !s.snap_pending && s.paging_gesture is None,
        input.lifecycle.down && !input.lifecycle.up && !input.lifecycle.physical_up,
        input.scroll_distance is None && input.gesture_distance is None,
    ensures
        ({
            let after = scroll::swiped(
                input,
                settings,
                candidate,
                rest,
                now,
                plus,
                blend,
                Some(s),
            );
            &&& after is Some
            &&& after->0.velocity.bits == 0
            &&& after->0.position == s.position
            &&& after->0.target_position is None
            &&& after->0.gesture_active && after->0.is_user_swiping
            &&& after->0.paging_gesture == if settings.swipe_paging {
                candidate
            } else {
                None
            }
        }),
{
}

// ---------------------------------------------------------------------------
// Motion
// ---------------------------------------------------------------------------
/// A gesture is over when the fingers are away and nothing was heard for more than fifty
/// milliseconds; the strip is put away where it is slow and has nowhere to go.
pub proof fn law_silence_ends_the_gesture(scroll: Scrolling, speed: Number, now: Instant)
    requires
        now.nanos >= scroll.last_event.nanos,
    ensures
        ({
            let (after, timeout) = motion::timed_out(scroll, speed, now);
            let silent = !scroll.gesture_active && now.nanos - scroll.last_event.nanos
                > 50_000_000;
            &&& !silent ==> timeout == Timeout::Active && after == scroll
            &&& silent ==> {
                &&& timeout is Ended
                &&& timeout->remove <==> speed.below(Number::spec_from_whole(5))
                    && scroll.target_position is None && !scroll.snap_pending
                &&& !after.is_user_swiping
                &&& after.position == scroll.position
                &&& after.velocity == scroll.velocity
                &&& after.target_position == scroll.target_position
                &&& after.snap_pending == scroll.snap_pending
                &&& after.paging_gesture == scroll.paging_gesture
            }
        }),
{
    lemma_five();
}

/// The bits of five.
proof fn lemma_five()
    ensures
        Number::spec_from_whole(5).bits == 0x4014_0000_0000_0000u64,
{
    reveal_with_fuel(crate::number::whole::exponent, 4);
    assert(crate::number::whole::exponent(5) == 2);
    vstd::arithmetic::power2::lemma2_to64();
    vstd::arithmetic::power2::lemma2_to64_rest();
    assert(vstd::arithmetic::power2::pow2(2) == 4);
    assert(vstd::arithmetic::power2::pow2(50) == 0x4_0000_0000_0000);
    assert((5 - 4) * 0x4_0000_0000_0000 == 0x4_0000_0000_0000);
    assert(crate::number::whole::whole_bits(5) == 0x4014_0000_0000_0000);
}

/// A strip that the user swipes does not lose speed; another one does, and stands once
/// it is slow enough. Nothing but its speed changes.
pub proof fn law_only_a_free_strip_slows_down(scroll: Scrolling, decayed: Number)
    ensures
        ({
            let after = motion::slowed(scroll, decayed);
            &&& scroll.is_user_swiping ==> after == scroll
            &&& !scroll.is_user_swiping && motion::coasts(scroll.velocity) ==> after.velocity
                == decayed
            &&& !scroll.is_user_swiping && !motion::coasts(scroll.velocity)
                ==> after.velocity.bits == 0
            &&& after == (Scrolling { velocity: after.velocity, ..scroll })
        }),
{
}

/// A strip that is to go somewhere goes toward it and is done when it is there; one that
/// is not coasts by its speed, or stays.
pub proof fn law_strip_goes_where_it_is_to_go(
    scroll: Scrolling,
    approached: Number,
    there: bool,
    coasted: Number,
    direction: SwipeGestureDirection,
)
    requires
        scroll.paging_gesture is None,
    ensures
        ({
            let after = motion::integrated(scroll, (approached, there), coasted, direction);
            let fast = (Number { bits: 0x3F1A_36E2_EB1C_432D }).below(scroll.velocity.spec_abs());
            &&& scroll.target_position is Some ==> after.position == approached
                && after.target_position == if there {
                None
            } else {
                scroll.target_position
            }
            &&& scroll.target_position is None && fast ==> after.position == coasted
            &&& scroll.target_position is None && !fast ==> after == scroll
            &&& after.velocity == scroll.velocity
            &&& after.snap_pending == scroll.snap_pending
            &&& after.is_user_swiping == scroll.is_user_swiping
        }),
{
}

/// A paging gesture is over once the strip is where it was to go and need not snap.
pub proof fn law_paging_ends_where_it_was_to_go(
    scroll: Scrolling,
    approached: Number,
    there: bool,
    coasted: Number,
    direction: SwipeGestureDirection,
)
    requires
        scroll.target_position is Some,
    ensures
        motion::integrated(scroll, (approached, there), coasted, direction).paging_gesture == if there
            && !scroll.snap_pending {
            None
        } else {
            scroll.paging_gesture
        },
{
}

/// After a swipe a slow strip hands the focus to what is under the mouse, where that is
/// wanted, and one that is slower than a hundred points stops; a faster one slows down.
pub proof fn law_slow_strip_stops(
    scroll: Scrolling,
    speed: Number,
    focus_speed: Number,
    follows: bool,
    decayed: Number,
)
    ensures
        ({
            let (after, outcome) = motion::after_swipe(
                scroll,
                speed,
                focus_speed,
                follows,
                decayed,
            );
            &&& scroll.is_user_swiping ==> outcome is None && after == scroll
            &&& !scroll.is_user_swiping ==> {
                &&& outcome is Some
                &&& outcome->0.refocus <==> follows && speed.below(focus_speed)
                &&& outcome->0.stop <==> speed.below(Number { bits: 0x4059_0000_0000_0000 })
                &&& outcome->0.stop ==> after == scroll
                &&& !outcome->0.stop ==> after == (Scrolling { velocity: decayed, ..scroll })
            }
        }),
{
}

/// Natural swiping goes against the fingers and reversed swiping with them: fingers that
/// go down show the workspace above, or the one below.
pub proof fn law_swiping_up_and_down_are_opposite(delta: Number)
    ensures
        (Number { bits: 0 }).below(delta) ==> motion::switch_direction(
            delta,
            SwipeGestureDirection::Natural,
        ) == Direction::North && motion::switch_direction(delta, SwipeGestureDirection::Reversed)
            == Direction::South,
        !(Number { bits: 0 }).below(delta) ==> motion::switch_direction(
            delta,
            SwipeGestureDirection::Natural,
        ) == Direction::South && motion::switch_direction(delta, SwipeGestureDirection::Reversed)
            == Direction::North,
        swipe::sign_of(SwipeGestureDirection::Natural) == -swipe::sign_of(
            SwipeGestureDirection::Reversed,
        ),
        swipe::sign_of(SwipeGestureDirection::Reversed) == 1,
{
}

/// Swipes with the right fingers add up until the gesture has fired; other events add
/// nothing.
pub proof fn law_vertical_swipes_add_up(
    state: VerticalGestureState,
    events: Seq<Event>,
    event: Event,
    configured: usize,
    plus: spec_fn(Number, Number) -> Number,
    now: Instant,
)
    requires
        configured >= 3,
    ensures
        motion::tallied_all(state, Seq::empty(), Some(configured), plus, now) == state,
        ({
            let before = motion::tallied_all(state, events, Some(configured), plus, now);
            let after = motion::tallied_all(
                state,
                events.push(event),
                Some(configured),
                plus,
                now,
            );
            let counts = event is VerticalSwipe && event->VerticalSwipe_fingers == configured;
            &&& counts && !before.fired ==> after.accumulated == plus(
                before.accumulated,
                event->VerticalSwipe_delta,
            ) && after.last_event == Some(now) && !after.fired
            &&& counts && before.fired ==> after.accumulated == before.accumulated && after.fired
                && after.last_event == Some(now)
            &&& !counts ==> after == before
        }),
{
    assert(events.push(event).drop_last() =~= events);
}

/// A vertical gesture that goes far enough switches once; the ticks of the wheel before
/// it switch once each.
pub proof fn law_vertical_gesture_fires_once(
    ticks: Seq<Direction>,
    full: VerticalGestureState,
    threshold: Number,
    direction: SwipeGestureDirection,
)
    ensures
        ({
            let (switches, after) = motion::discharged(ticks, full, threshold, direction);
            let fires = threshold.at_most(full.accumulated.spec_abs());
            &&& fires ==> switches == ticks.push(
                motion::switch_direction(full.accumulated, direction),
            ) && after.fired && after.accumulated.bits == 0
            &&& !fires ==> switches == ticks && after == full
            &&& after.last_event == full.last_event
        }),
{
}

/// A pause of more than a hundred and fifty milliseconds starts a vertical gesture anew.
pub proof fn law_pause_starts_a_gesture_anew(state: VerticalGestureState, now: Instant)
    ensures
        ({
            let after = motion::refreshed(state, now);
            let paused = state.last_event is Some && now.nanos - state.last_event->0.nanos
                > 150_000_000;
            &&& paused ==> !after.fired && after.accumulated.bits == 0
            &&& !paused ==> after == state
            &&& after.last_event == state.last_event
        }),
{
}

// ---------------------------------------------------------------------------
// Stops
// ---------------------------------------------------------------------------
/// The stops of a gesture are the one where it started and the ones on both sides.
pub proof fn law_gesture_reaches_one_stop_each_way(stops: Seq<Number>, k: int)
    requires
        0 <= k < stops.len(),
    ensures
        ({
            let gesture = paging::gesture_at(stops, k);
            &&& gesture.start_stop == stops[k]
            &&& k > 0 ==> gesture.previous_stop == Some(stops[k - 1]) && gesture.upper()
                == stops[k - 1]
            &&& k == 0 ==> gesture.previous_stop is None && gesture.upper() == stops[k]
            &&& k + 1 < stops.len() ==> gesture.next_stop == Some(stops[k + 1]) && gesture.lower()
                == stops[k + 1]
            &&& k + 1 == stops.len() ==> gesture.next_stop is None && gesture.lower() == stops[k]
            &&& gesture.release_velocity.bits == 0
        }),
{
}

/// A strip between the stops of its gesture stays, with its speed; one beyond them is at
/// the stop, and stands if it runs on.
pub proof fn law_stop_holds_the_strip(
    s: Scrolling,
    paging: PagingGesture,
    direction: SwipeGestureDirection,
)
    requires
        s.paging_gesture == Some(paging),
        s.target_position is None,
        paging.lower().at_most(paging.upper()),
    ensures
        ({
            let after = paging::constrained(s, direction);
            let forward = paging::along(s.velocity, direction);
            let zero = Number { bits: 0 };
            &&& paging.lower().at_most(s.position) && s.position.at_most(paging.upper()) ==> after
                == s
            &&& s.position.below(paging.lower()) ==> after.position == paging.lower()
            &&& s.position.below(paging.lower()) && forward.below(zero) ==> after.velocity == zero
            &&& paging.upper().below(s.position) ==> after.position == paging.upper()
            &&& paging.upper().below(s.position) && zero.below(forward) ==> after.velocity == zero
        }),
        paging::along(s.velocity, SwipeGestureDirection::Reversed) == s.velocity,
        paging::along(s.velocity, SwipeGestureDirection::Natural).bits == s.velocity.bits
            ^ 0x8000_0000_0000_0000u64,
{
}

/// A strip that is let go within thirty-two points of where it started stays there,
/// unless another stop is nearer.
pub proof fn law_near_start_holds(release: Release)
    requires
        release.displacement.spec_abs().at_most(Number { bits: 0x4040_0000_0000_0000 }),
        release.from_previous is Some ==> release.displacement.spec_abs().bits
            <= release.from_previous->0.spec_abs().bits,
        release.from_next is Some ==> release.displacement.spec_abs().bits
            <= release.from_next->0.spec_abs().bits,
    ensures
        release.hop() == Hop::Start,
{
}

/// A strip that no stop is near to goes on to the stop toward which it has moved far
/// enough, or else to the one toward which it was flung, or else back.
pub proof fn law_far_strip_goes_on(release: Release)
    requires
        !release.displacement.spec_abs().at_most(Number { bits: 0x4040_0000_0000_0000 }),
        release.from_previous is Some && !release.from_previous->0.spec_abs().at_most(
            Number { bits: 0x4040_0000_0000_0000 },
        ),
        release.from_next is Some && !release.from_next->0.spec_abs().at_most(
            Number { bits: 0x4040_0000_0000_0000 },
        ),
        !release.displacement.is_nan(),
    ensures
        ({
            let zero = Number { bits: 0 };
            let size = release.displacement.spec_abs();
            let to_previous = zero.below(release.displacement)
                && release.previous_threshold.at_most(size);
            let to_next = release.displacement.below(zero) && release.next_threshold.at_most(size);
            let fast = (Number { bits: 0x3FE0_0000_0000_0000 }).at_most(
                release.velocity.spec_abs(),
            );
            &&& to_previous ==> release.hop() == Hop::Previous
            &&& to_next ==> release.hop() == Hop::Next
            &&& !to_previous && !to_next && !fast ==> release.hop() == Hop::Start
            &&& !to_previous && !to_next && fast && zero.below(release.velocity) ==> release.hop()
                == Hop::Previous
            &&& !to_previous && !to_next && fast && release.velocity.below(zero) ==> release.hop()
                == Hop::Next
        }),
{
}

/// A strip that is near a stop on one side only goes there.
pub proof fn law_near_stop_holds(release: Release)
    requires
        !release.displacement.spec_abs().at_most(Number { bits: 0x4040_0000_0000_0000 }),
    ensures
        release.from_previous is Some && release.from_previous->0.spec_abs().at_most(
            Number { bits: 0x4040_0000_0000_0000 },
        ) && release.from_next is None ==> release.hop() == Hop::Previous,
        release.from_next is Some && release.from_next->0.spec_abs().at_most(
            Number { bits: 0x4040_0000_0000_0000 },
        ) && release.from_previous is None ==> release.hop() == Hop::Next,
{
}

/// A hop goes to the stop that it is named for, or stays where the gesture started.
pub proof fn law_hop_goes_to_its_stop(gesture: PagingGesture)
    ensures
        viewport::stop_of(gesture, Hop::Start) == gesture.start_stop,
        gesture.previous_stop is Some ==> viewport::stop_of(gesture, Hop::Previous)
            == gesture.previous_stop->0,
        gesture.next_stop is Some ==> viewport::stop_of(gesture, Hop::Next)
            == gesture.next_stop->0,
        gesture.previous_stop is None ==> viewport::stop_of(gesture, Hop::Previous)
            == gesture.start_stop,
        gesture.next_stop is None ==> viewport::stop_of(gesture, Hop::Next) == gesture.start_stop,
{
}

/// A strip may stop where the left edge of a column is at that of the viewport, if the
/// ends of the strip allow it; every stop is between its ends.
pub proof fn law_columns_are_stops(
    viewport: IRect,
    columns: Seq<(i32, i32)>,
    left: int,
    right: int,
    i: int,
    x: int,
)
    requires
        0 <= i < columns.len(),
        columns[i].1 > 0,
    ensures
        ({
            let (lower, upper) = paging::bounds(viewport, left, right);
            &&& lower <= upper
            &&& {
                ||| lower == viewport.min.x - left && upper == viewport.max.x - right
                ||| upper == viewport.min.x - left && lower == viewport.max.x - right
            }
            &&& lower <= viewport.min.x - columns[i].0 <= upper ==> paging::is_stop(
                viewport,
                columns,
                lower,
                upper,
                viewport.min.x - columns[i].0,
            )
            &&& columns[i].1 > viewport.max.x - viewport.min.x && lower <= viewport.max.x
                - columns[i].0 - columns[i].1 <= upper ==> paging::is_stop(
                viewport,
                columns,
                lower,
                upper,
                viewport.max.x - columns[i].0 - columns[i].1,
            )
            &&& paging::is_stop(viewport, columns, lower, upper, x) ==> lower <= x <= upper
        }),
{
    assert(paging::has_width(columns[i]));
}

/// A strip is at rest when no finger is on the touchpad, it is not swiped, it has nowhere
/// to go, and it is slow.
pub proof fn law_strip_at_rest(s: Scrolling)
    ensures
        paging::at_rest(s) <==> !s.gesture_active && !s.is_user_swiping && s.target_position
            is None && s.velocity.spec_abs().at_most(Number { bits: 0x3FE0_0000_0000_0000 }),
{
}

/// Columns count for paging where their place and width are known.
pub proof fn law_measured_columns_count(columns: Seq<ColumnMetrics>, column: ColumnMetrics)
    ensures
        columns.push(column).filter_map(paging::measured()) == if column.position is Some
            && column.width is Some {
            columns.filter_map(paging::measured()).push((column.position->0, column.width->0))
        } else {
            columns.filter_map(paging::measured())
        },
        columns.push(column).filter_map(viewport::centered()) == if column.position is Some {
            columns.filter_map(viewport::centered()).push(
                (
                    column.position->0,
                    if column.top_width is Some {
                        column.top_width->0
                    } else {
                        0
                    },
                ),
            )
        } else {
            columns.filter_map(viewport::centered())
        },
{
    search::lemma_filter_map_push(columns, paging::measured(), column);
    search::lemma_filter_map_push(columns, viewport::centered(), column);
}

// ---------------------------------------------------------------------------
// Snapping
// ---------------------------------------------------------------------------
/// Paging goes before sticky edges, and these before centring.
pub proof fn law_paging_goes_first(sticky: bool, center: bool)
    ensures
        viewport::mode_of(true, sticky, center) == SnapMode::Paging,
        viewport::mode_of(false, true, center) == SnapMode::Sticky,
        viewport::mode_of(false, false, true) == SnapMode::Center,
        viewport::mode_of(false, false, false) == SnapMode::Off,
{
}

/// A strip that is caught has an edge of a column at the same edge of the viewport, and
/// was no more than thirty-two points inside it.
pub proof fn law_caught_edge_is_at_the_viewport(
    viewport: IRect,
    columns: Seq<(i32, i32)>,
    offset: int,
    target: int,
)
    requires
        viewport::is_sticky_target(viewport, columns, offset, target),
    ensures
        exists|k: int|
            0 <= k < columns.len() && {
                ||| target + (#[trigger] columns[k]).0 == viewport.min.x && target - 32 <= offset
                    <= target
                ||| target + columns[k].0 + columns[k].1 == viewport.max.x && target <= offset
                    <= target + 32
            },
{
    let (k, right) = choose|k: int, right: bool|
        0 <= k < columns.len() && #[trigger] viewport::catches(viewport, columns[k], right, offset)
            && target == viewport::edge_offset(viewport, columns[k], right);
    assert(0 <= k < columns.len());
    let column = columns[k];
}

/// A column is caught where its edge is up to thirty-two points inside the viewport's.
pub proof fn law_near_edges_catch(viewport: IRect, column: (i32, i32), offset: int)
    ensures
        viewport::catches(viewport, column, false, offset) <==> -32 <= offset + column.0
            - viewport.min.x <= 0,
        viewport::catches(viewport, column, true, offset) <==> 0 <= offset + column.0 + column.1
            - viewport.max.x <= 32,
{
}

/// A column that is centred is as far from one edge of the viewport as from the other,
/// but for rounding.
pub proof fn law_centred_column_is_in_the_middle(viewport: IRect, column: (i32, i32))
    requires
        column.1 >= 0,
    ensures
        ({
            let left = viewport::center_offset(viewport, column) + column.0 - viewport.min.x;
            let right = viewport.max.x - (viewport::center_offset(viewport, column) + column.0
                + column.1);
            -2 <= left - right <= 2
        }),
{
}

/// The column that is centred is the one that needs the least move.
pub proof fn law_nearest_column_is_centred(
    viewport: IRect,
    columns: Seq<(i32, i32)>,
    offset: int,
    target: int,
    j: int,
)
    requires
        viewport::is_center_target(viewport, columns, offset, target),
        0 <= j < columns.len(),
    ensures
        exists|k: int|
            0 <= k < columns.len() && target == viewport::center_offset(
                viewport,
                #[trigger] columns[k],
            ),
        ({
            let its = offset - viewport::center_offset(viewport, columns[j]);
            let mine = offset - target;
            (if mine < 0 {
                -mine
            } else {
                mine
            }) <= if its < 0 {
                -its
            } else {
                its
            }
        }),
{
    let k = choose|k: int| #[trigger]
        viewport::is_nearest_center(viewport, columns, offset, k) && target
            == viewport::center_offset(viewport, columns[k]);
    assert(target == viewport::center_offset(viewport, columns[k]));
}

/// A strip that snaps stands, is to go to the place it snaps to, and need not snap again;
/// one that finds no place goes on. Centring pulls over less than nine twentieths of the
/// viewport.
pub proof fn law_snapping_strip_goes_to_its_place(
    mode: SnapMode,
    s: Scrolling,
    position: int,
    width: int,
    offset: i32,
)
    ensures
        ({
            let after = viewport::snapped(mode, s, position, width, Some(offset));
            let far = position - offset >= 0 && 20 * (position - offset) >= 9 * width || offset
                - position >= 0 && 20 * (offset - position) >= 9 * width;
            &&& !after.snap_pending
            &&& after.position == s.position
            &&& mode != SnapMode::Center || !far ==> after.velocity.bits == 0
                && after.target_position == Some(Number::spec_from_whole(offset))
            &&& mode == SnapMode::Center && far ==> after.velocity == s.velocity
                && after.target_position == s.target_position
        }),
        viewport::snapped(mode, s, position, width, None) == (Scrolling {
            snap_pending: false,
            ..s
        }),
{
}

/// A strip that is still moving does not snap; one that is at rest with nothing to snap
/// to is done.
pub proof fn law_moving_strip_does_not_snap(
    mode: SnapMode,
    before: Scrolling,
    position: int,
    scene: SnapScene,
    after: Scrolling,
)
    requires
        viewport::settles(mode, before, position, scene, after),
    ensures
        mode != SnapMode::Off && (before.gesture_active || before.is_user_swiping
            || before.target_position is Some) ==> after == before,
        mode == SnapMode::Off ==> after == (Scrolling { snap_pending: false, ..before }),
        mode == SnapMode::Paging && paging::at_rest(before) && before.paging_gesture is Some
            ==> after.target_position == Some(
            Number::spec_from_whole(
                viewport::stop_of(
                    before.paging_gesture->0,
                    scene.release.hop(),
                ).spec_truncated() as i32,
            ),
        ),
{
}

/// A centred window pulls a strip that is not swiped all the way, where that is less than
/// a twentieth of the viewport.
pub proof fn law_centre_pulls_from_near(
    position: int,
    viewport: IRect,
    columns: Seq<ColumnMetrics>,
    pull: i32,
)
    requires
        viewport::is_pull(false, position, viewport, columns, Some(pull)),
        viewport::centers_fit(viewport, columns.filter_map(viewport::centered()), position),
        columns.filter_map(viewport::centered()).len() > 0,
    ensures
        20 * pull < viewport.max.x - viewport.min.x,
        -20 * pull < viewport.max.x - viewport.min.x,
        viewport::is_center_target(
            viewport,
            columns.filter_map(viewport::centered()),
            position,
            position - pull,
        ),
{
    let known = columns.filter_map(viewport::centered());
    let target = choose|target: int|
        {
            let distance = position - target;
            &&& #[trigger] viewport::is_center_target(viewport, known, position, target)
            &&& Some(pull) == if 20 * viewport::abs(distance) < viewport.spec_width() {
                Some(distance as i32)
            } else {
                None
            }
        };
    let k = choose|k: int| #[trigger]
        viewport::is_nearest_center(viewport, known, position, k) && target
            == viewport::center_offset(viewport, known[k]);
    assert(crate::geometry::fits(position - viewport::center_offset(viewport, known[k])));
}

/// Each tick of the wheel switches once, in order.
pub proof fn law_each_tick_switches(
    events: Seq<Event>,
    delta: Number,
    direction: SwipeGestureDirection,
)
    ensures
        events.push(Event::VerticalScrollTick { delta }).filter_map(
            motion::tick_switch(direction),
        ) == events.filter_map(motion::tick_switch(direction)).push(
            motion::switch_direction(delta, direction),
        ),
        events.push(Event::Scroll { delta }).filter_map(motion::tick_switch(direction))
            == events.filter_map(motion::tick_switch(direction)),
{
    let f = motion::tick_switch(direction);
    search::lemma_filter_map_push(events, f, Event::VerticalScrollTick { delta });
    search::lemma_filter_map_push(events, f, Event::Scroll { delta });
}

/// A gesture starts at the stop that is nearest, the first of several.
pub proof fn law_gesture_starts_at_the_nearest_stop(distances: Seq<Number>, k: int, j: int)
    requires
        paging::is_nearest(distances, k),
        0 <= j < distances.len(),
        !distances[j].is_nan(),
        !distances[k].is_nan(),
    ensures
        distances[k].spec_abs().at_most(distances[j].spec_abs()),
        j < k ==> !distances[j].spec_abs().at_most(distances[k].spec_abs()),
{
    let (a, b) = (distances[k].bits, distances[j].bits);
    assert((a & 0x7FFF_FFFF_FFFF_FFFF) & 0x7FFF_FFFF_FFFF_FFFF == a & 0x7FFF_FFFF_FFFF_FFFF && (a
        & 0x7FFF_FFFF_FFFF_FFFF) < 0x8000_0000_0000_0000) by (bit_vector);
    assert((b & 0x7FFF_FFFF_FFFF_FFFF) & 0x7FFF_FFFF_FFFF_FFFF == b & 0x7FFF_FFFF_FFFF_FFFF && (b
        & 0x7FFF_FFFF_FFFF_FFFF) < 0x8000_0000_0000_0000) by (bit_vector);
}

/// The ends of what is shown on a strip are the outermost edges of its columns.
pub proof fn law_ends_are_the_outermost_edges(
    columns: Seq<(i32, i32)>,
    left: int,
    right: int,
    i: int,
)
    requires
        paging::is_content_min(columns, left),
        paging::is_content_max(columns, right),
        0 <= i < columns.len(),
        columns[i].1 > 0,
    ensures
        left <= columns[i].0,
        columns[i].0 + columns[i].1 <= i32::MAX ==> columns[i].0 + columns[i].1 <= right,
        exists|j: int| 0 <= j < columns.len() && (#[trigger] columns[j]).0 == left,
{
    assert(paging::has_width(columns[i]));
}

/// A strip is caught by the nearest edge that catches it.
pub proof fn law_nearest_edge_catches(
    viewport: IRect,
    columns: Seq<(i32, i32)>,
    offset: int,
    target: int,
    k: int,
)
    requires
        viewport::is_sticky_target(viewport, columns, offset, target),
        0 <= k < columns.len(),
    ensures
        ({
            let left = viewport.min.x - columns[k].0;
            let right = viewport.max.x - (columns[k].0 + columns[k].1);
            let far = if offset < target {
                target - offset
            } else {
                offset - target
            };
            &&& left - 32 <= offset <= left ==> far <= left - offset
            &&& right <= offset <= right + 32 ==> far <= offset - right
        }),
{
    let (n, side) = choose|n: int, side: bool|
        {
            &&& 0 <= n < columns.len()
            &&& #[trigger] viewport::catches(viewport, columns[n], side, offset)
            &&& target == viewport::edge_offset(viewport, columns[n], side)
            &&& forall|j: int, other: bool|
                0 <= j < columns.len() && #[trigger] viewport::catches(
                    viewport,
                    columns[j],
                    other,
                    offset,
                ) ==> viewport::abs(offset - target) <= viewport::abs(
                    offset - viewport::edge_offset(viewport, columns[j], other),
                )
        };
    let left = viewport::catches(viewport, columns[k], false, offset);
    let right = viewport::catches(viewport, columns[k], true, offset);
}

/// The right end of what is shown on a strip is the right edge of a column.
pub proof fn law_right_end_is_an_edge(columns: Seq<(i32, i32)>, right: int)
    requires
        paging::is_content_max(columns, right),
        forall|i: int|
            0 <= i < columns.len() ==> (#[trigger] columns[i]).0 + columns[i].1 <= i32::MAX,
    ensures
        exists|j: int|
            0 <= j < columns.len() && (#[trigger] columns[j]).1 > 0 && columns[j].0 + columns[j].1
                == right,
{
    let i = choose|i: int|
        0 <= i < columns.len() && paging::has_width(#[trigger] columns[i]) && paging::right_edge(
            columns[i],
        ) == right;
    assert(columns[i].0 + columns[i].1 <= i32::MAX);
}

} // verus!
