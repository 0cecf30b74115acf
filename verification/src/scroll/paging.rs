//! One-hop paging of horizontal strip gestures: a gesture starts at a stop and
//! ends there or at one of the two next to it.
use vstd::prelude::*;

use crate::config::swipe::SwipeGestureDirection;
use crate::geometry;
use crate::geometry::IRect;
use crate::number::Number;
use crate::scroll::viewport::ColumnMetrics;
use crate::scroll::{PagingGesture, Scrolling};

verus! {

/// A velocity of this size or more flings the strip to the next stop: one half.
pub open spec fn fling_velocity() -> Number {
    Number { bits: 0x3FE0_0000_0000_0000 }
}

/// A stop this close or closer holds the strip: thirty-two points.
pub open spec fn sticky_distance() -> Number {
    Number { bits: 0x4040_0000_0000_0000 }
}

// ---------------------------------------------------------------------------
// Stops
// ---------------------------------------------------------------------------
/// A number moved into a range.
pub open spec fn clamped(x: int, lower: int, upper: int) -> int {
    if x < lower {
        lower
    } else if x > upper {
        upper
    } else {
        x
    }
}

/// A column that is there at all.
pub open spec fn has_width(column: (i32, i32)) -> bool {
    column.1 > 0
}

/// The right edge of a column, as far as a coordinate can say.
pub open spec fn right_edge(column: (i32, i32)) -> int {
    clamped(column.0 + column.1, i32::MIN as int, i32::MAX as int)
}

/// `x` is the least left edge of the columns.
pub open spec fn is_content_min(columns: Seq<(i32, i32)>, x: int) -> bool {
    &&& exists|i: int| 0 <= i < columns.len() && has_width(#[trigger] columns[i]) && columns[i].0 == x
    &&& forall|i: int|
        0 <= i < columns.len() && has_width(#[trigger] columns[i]) ==> x <= columns[i].0
}

/// `x` is the greatest right edge of the columns.
pub open spec fn is_content_max(columns: Seq<(i32, i32)>, x: int) -> bool {
    &&& exists|i: int|
        0 <= i < columns.len() && has_width(#[trigger] columns[i]) && right_edge(columns[i]) == x
    &&& forall|i: int|
        0 <= i < columns.len() && has_width(#[trigger] columns[i]) ==> right_edge(columns[i]) <= x
}

/// A strip offset at which a gesture may stop: one that puts the left edge of
/// a column at that of the viewport, or the right edges of a column that is
/// wider than the viewport, as far as the ends of the strip let it.
pub open spec fn is_stop(
    viewport: IRect,
    columns: Seq<(i32, i32)>,
    lower: int,
    upper: int,
    x: int,
) -> bool {
    exists|i: int|
        0 <= i < columns.len() && has_width(#[trigger] columns[i]) && (x == clamped(
            viewport.min.x - columns[i].0,
            lower,
            upper,
        ) || columns[i].1 > viewport.spec_width() && x == clamped(
            viewport.max.x - columns[i].0 - columns[i].1,
            lower,
            upper,
        ))
}

/// The offsets at which a strip with these ends is aligned with the viewport.
pub open spec fn bounds(viewport: IRect, content_min: int, content_max: int) -> (int, int) {
    let first = viewport.min.x - content_min;
    let last = viewport.max.x - content_max;
    if first <= last {
        (first, last)
    } else {
        (last, first)
    }
}

/// Every number on the way to the stops fits a machine integer.
pub open spec fn stops_fit(viewport: IRect, columns: Seq<(i32, i32)>) -> bool {
    &&& viewport.measurable()
    &&& forall|i: int|
        0 <= i < columns.len() && has_width(#[trigger] columns[i]) ==> {
            &&& geometry::fits(viewport.min.x - columns[i].0)
            &&& geometry::fits(viewport.max.x - columns[i].0)
            &&& geometry::fits(viewport.max.x - columns[i].0 - columns[i].1)
            &&& geometry::fits(viewport.max.x - right_edge(columns[i]))
        }
}

/// From the greatest to the least, none twice.
pub open spec fn decreasing(stops: Seq<i32>) -> bool {
    forall|i: int, j: int| 0 <= i < j < stops.len() ==> stops[i] > stops[j]
}

/// Puts a stop into its place, unless it is there already.
fn insert_stop(stops: &mut Vec<i32>, stop: i32)
    requires
        decreasing(old(stops)@),
    ensures
        decreasing(final(stops)@),
        forall|x: i32| #[trigger]
            final(stops)@.contains(x) <==> old(stops)@.contains(x) || x == stop,
{
    let ghost before = stops@;
    let mut i: usize = 0;
    while i < stops.len() && stops[i] > stop
        invariant
            i <= stops.len(),
            stops@ == before,
            forall|j: int| 0 <= j < i ==> #[trigger] stops@[j] > stop,
        decreases stops.len() - i,
    {
        i = i + 1;
    }
    if i < stops.len() && stops[i] == stop {
        assert(before.contains(stop));
        return ;
    }
    stops.insert(i, stop);
    proof {
        let after = stops@;
        assert(after[i as int] == stop);
        assert forall|x: i32| #[trigger] after.contains(x) <==> before.contains(x) || x == stop by {
            if before.contains(x) {
                let k = choose|k: int| 0 <= k < before.len() && before[k] == x;
                if k < i {
                    assert(after[k] == x);
                } else {
                    assert(after[k + 1] == x);
                }
            }
            if after.contains(x) && x != stop {
                let k = choose|k: int| 0 <= k < after.len() && after[k] == x;
                if k < i {
                    assert(before[k] == x);
                } else {
                    assert(before[k - 1] == x);
                }
            }
        }
    }
}

/// The paging stops of a strip in reading order. Offsets decrease as the strip
/// advances to the right, so they go from the greatest to the least.
pub fn snap_stops(viewport: &IRect, columns: &Vec<(i32, i32)>) -> (stops: Vec<i32>)
    requires
        stops_fit(*viewport, columns@),
    ensures
        decreasing(stops@),
        forall|content_min: int, content_max: int, x: i32|
            #![trigger is_content_min(columns@, content_min), is_content_max(columns@, content_max), stops@.contains(x)]
            is_content_min(columns@, content_min) && is_content_max(columns@, content_max) ==> (
            stops@.contains(x) <==> is_stop(
                *viewport,
                columns@,
                bounds(*viewport, content_min, content_max).0,
                bounds(*viewport, content_min, content_max).1,
                x as int,
            )),
        (forall|i: int| 0 <= i < columns.len() ==> !has_width(#[trigger] columns@[i])) ==> stops@
            == Seq::<i32>::empty(),
{
    let mut stops: Vec<i32> = Vec::new();
    let mut content_min: i32 = 0;
    let mut content_max: i32 = 0;
    let mut any = false;
    let mut i: usize = 0;
    while i < columns.len()
        invariant
            i <= columns.len(),
            any <==> exists|j: int| 0 <= j < i && has_width(#[trigger] columns@[j]),
            any ==> is_content_min(columns@.take(i as int), content_min as int),
            any ==> is_content_max(columns@.take(i as int), content_max as int),
        decreases columns.len() - i,
    {
        let (position, width): (i32, i32) = columns[i];
        let ghost taken = columns@.take(i as int);
        let ghost grown = columns@.take(i + 1);
        assert(grown =~= taken.push(columns@[i as int]));
        if width > 0 {
            let edge: i32 = if position > i32::MAX - width {
                i32::MAX
            } else {
                position + width
            };
            assert(grown[i as int] == columns@[i as int]);
            assert(edge == right_edge(columns@[i as int]));
            let ghost (least, most) = (content_min, content_max);
            if !any || position < content_min {
                content_min = position;
            }
            if !any || edge > content_max {
                content_max = edge;
            }
            proof {
                if any {
                    let a = choose|a: int|
                        0 <= a < taken.len() && has_width(#[trigger] taken[a]) && taken[a].0 == least;
                    assert(grown[a] == taken[a]);
                    let b = choose|b: int|
                        0 <= b < taken.len() && has_width(#[trigger] taken[b]) && right_edge(
                            taken[b],
                        ) == most;
                    assert(grown[b] == taken[b]);
                }
                assert forall|k: int| 0 <= k < grown.len() && has_width(#[trigger] grown[k]) implies
                    content_min <= grown[k].0 && right_edge(grown[k]) <= content_max by {
                    if k < i {
                        assert(grown[k] == taken[k]);
                        assert(columns@[k] == taken[k]);
                    }
                }
            }
            any = true;
        } else {
            proof {
                if any {
                    let a = choose|a: int|
                        0 <= a < taken.len() && has_width(#[trigger] taken[a]) && taken[a].0
                            == content_min;
                    assert(grown[a] == taken[a]);
                    let b = choose|b: int|
                        0 <= b < taken.len() && has_width(#[trigger] taken[b]) && right_edge(
                            taken[b],
                        ) == content_max;
                    assert(grown[b] == taken[b]);
                    assert forall|k: int|
                        0 <= k < grown.len() && has_width(#[trigger] grown[k]) implies content_min
                        <= grown[k].0 && right_edge(grown[k]) <= content_max by {
                        assert(k < i);
                        assert(grown[k] == taken[k]);
                    }
                }
            }
        }
        i = i + 1;
    }
    assert(columns@.take(i as int) =~= columns@);
    if !any {
        return stops;
    }
    let first: i32 = viewport.min.x - content_min;
    let last: i32 = viewport.max.x - content_max;
    let (lower, upper): (i32, i32) = if first <= last {
        (first, last)
    } else {
        (last, first)
    };
    let width_now: i32 = viewport.width();
    let mut k: usize = 0;
    while k < columns.len()
        invariant
            k <= columns.len(),
            stops_fit(*viewport, columns@),
            lower <= upper,
            width_now == viewport.spec_width(),
            decreasing(stops@),
            forall|x: i32| #[trigger]
                stops@.contains(x) <==> is_stop(
                    *viewport,
                    columns@.take(k as int),
                    lower as int,
                    upper as int,
                    x as int,
                ),
        decreases columns.len() - k,
    {
        let (position, width): (i32, i32) = columns[k];
        let ghost taken = columns@.take(k as int);
        let ghost grown = columns@.take(k + 1);
        let ghost here = columns@[k as int];
        assert(grown =~= taken.push(here));
        let ghost had = stops@;
        let ghost left_stop = clamped(
            viewport.min.x - here.0,
            lower as int,
            upper as int,
        );
        let ghost right_stop = clamped(
            viewport.max.x - here.0 - here.1,
            lower as int,
            upper as int,
        );
        if width > 0 {
            insert_stop(&mut stops, clamp(viewport.min.x - position, lower, upper));
            if width > width_now {
                insert_stop(&mut stops, clamp(viewport.max.x - position - width, lower, upper));
            }
        }
        proof {
            assert forall|x: i32| #[trigger]
                stops@.contains(x) <==> is_stop(
                    *viewport,
                    grown,
                    lower as int,
                    upper as int,
                    x as int,
                ) by {
                let new = has_width(here) && (x == left_stop || here.1 > viewport.spec_width() && x
                    == right_stop);
                assert(stops@.contains(x) <==> had.contains(x) || new);
                if had.contains(x) {
                    let a = choose|a: int|
                        0 <= a < taken.len() && has_width(#[trigger] taken[a]) && (x == clamped(
                            viewport.min.x - taken[a].0,
                            lower as int,
                            upper as int,
                        ) || taken[a].1 > viewport.spec_width() && x == clamped(
                            viewport.max.x - taken[a].0 - taken[a].1,
                            lower as int,
                            upper as int,
                        ));
                    assert(grown[a] == taken[a]);
                }
                if new {
                    assert(grown[k as int] == here);
                }
                if is_stop(*viewport, grown, lower as int, upper as int, x as int) && !new {
                    let a = choose|a: int|
                        0 <= a < grown.len() && has_width(#[trigger] grown[a]) && (x == clamped(
                            viewport.min.x - grown[a].0,
                            lower as int,
                            upper as int,
                        ) || grown[a].1 > viewport.spec_width() && x == clamped(
                            viewport.max.x - grown[a].0 - grown[a].1,
                            lower as int,
                            upper as int,
                        ));
                    assert(a != k);
                    assert(taken[a] == grown[a]);
                    assert(is_stop(*viewport, taken, lower as int, upper as int, x as int));
                }
            }
        }
        k = k + 1;
    }
    proof {
        assert(columns@.take(k as int) =~= columns@);
        assert forall|low: int, high: int, x: i32|
            #![trigger is_content_min(columns@, low), is_content_max(columns@, high), stops@.contains(x)]
            is_content_min(columns@, low) && is_content_max(columns@, high) implies (
        stops@.contains(x) <==> is_stop(
            *viewport,
            columns@,
            bounds(*viewport, low, high).0,
            bounds(*viewport, low, high).1,
            x as int,
        )) by {
            assert(low == content_min);
            assert(high == content_max);
        }
    }
    stops
}

/// A number moved into a range.
pub fn clamp(x: i32, lower: i32, upper: i32) -> (result: i32)
    requires
        lower <= upper,
    ensures
        result == clamped(x as int, lower as int, upper as int),
        lower <= result <= upper,
{
    if x < lower {
        lower
    } else if x > upper {
        upper
    } else {
        x
    }
}

// ---------------------------------------------------------------------------
// Gestures
// ---------------------------------------------------------------------------
/// `k` is the first of the least distances.
pub open spec fn is_nearest(distances: Seq<Number>, k: int) -> bool {
    &&& 0 <= k < distances.len()
    &&& forall|j: int|
        0 <= j < distances.len() ==> distances[k].spec_abs().bits <= (
        #[trigger] distances[j]).spec_abs().bits
    &&& forall|j: int|
        0 <= j < k ==> distances[k].spec_abs().bits < (#[trigger] distances[j]).spec_abs().bits
}

/// The gesture that starts at the `k`-th stop.
pub open spec fn gesture_at(stops: Seq<Number>, k: int) -> PagingGesture {
    PagingGesture {
        start_stop: stops[k],
        previous_stop: if k > 0 {
            Some(stops[k - 1])
        } else {
            None
        },
        next_stop: if k + 1 < stops.len() {
            Some(stops[k + 1])
        } else {
            None
        },
        release_velocity: Number { bits: 0 },
    }
}

/// Starts a gesture at the stop that is nearest to the strip. `distances` are
/// those of the strip from each of the stops.
pub fn capture_gesture(stops: &Vec<Number>, distances: &Vec<Number>) -> (gesture: Option<
    PagingGesture,
>)
    requires
        stops.len() == distances.len(),
    ensures
        gesture is None <==> stops.len() == 0,
        gesture matches Some(g) ==> exists|k: int|
            #[trigger] is_nearest(distances@, k) && g == gesture_at(stops@, k),
{
    if stops.len() == 0 {
        return None;
    }
    let mut k: usize = 0;
    let mut i: usize = 1;
    while i < stops.len()
        invariant
            stops.len() == distances.len(),
            k < i <= stops.len(),
            forall|j: int|
                0 <= j < i ==> distances@[k as int].spec_abs().bits <= (
                #[trigger] distances@[j]).spec_abs().bits,
            forall|j: int|
                0 <= j < k ==> distances@[k as int].spec_abs().bits < (
                #[trigger] distances@[j]).spec_abs().bits,
        decreases stops.len() - i,
    {
        if distances[i].abs().bits < distances[k].abs().bits {
            k = i;
        }
        i = i + 1;
    }
    assert(is_nearest(distances@, k as int));
    Some(
        PagingGesture {
            start_stop: stops[k],
            previous_stop: if k > 0 {
                Some(stops[k - 1])
            } else {
                None
            },
            next_stop: if k + 1 < stops.len() {
                Some(stops[k + 1])
            } else {
                None
            },
            release_velocity: Number::zero(),
        },
    )
}

impl PagingGesture {
    /// The least offset that the gesture may reach.
    pub open spec fn lower(self) -> Number {
        match self.next_stop {
            Some(stop) => stop,
            None => self.start_stop,
        }
    }

    /// The greatest offset that the gesture may reach.
    pub open spec fn upper(self) -> Number {
        match self.previous_stop {
            Some(stop) => stop,
            None => self.start_stop,
        }
    }

    /// The stops are in order.
    pub open spec fn ordered(self) -> bool {
        self.lower().at_most(self.upper())
    }
}

/// A velocity along the offsets: offsets fall when natural swiping goes forward.
pub open spec fn along(velocity: Number, direction: SwipeGestureDirection) -> Number {
    match direction {
        SwipeGestureDirection::Natural => velocity.spec_negated(),
        SwipeGestureDirection::Reversed => velocity,
    }
}

/// The strip kept between the stops of its gesture. What runs against one of
/// them stops.
pub open spec fn constrained(scrolling: Scrolling, direction: SwipeGestureDirection) -> Scrolling {
    match scrolling.paging_gesture {
        None => scrolling,
        Some(paging) => {
            let zero = Number { bits: 0 };
            let velocity = along(scrolling.velocity, direction);
            Scrolling {
                position: scrolling.position.spec_clamp(paging.lower(), paging.upper()),
                target_position: match scrolling.target_position {
                    Some(target) => Some(target.spec_clamp(paging.lower(), paging.upper())),
                    None => None,
                },
                velocity: if scrolling.position.below(paging.lower()) && velocity.below(zero)
                    || paging.upper().below(scrolling.position) && zero.below(velocity) {
                    zero
                } else {
                    scrolling.velocity
                },
                ..scrolling
            }
        },
    }
}

/// Keeps the strip between the stops of its gesture.
pub fn constrain_motion(scrolling: &mut Scrolling, direction: SwipeGestureDirection)
    requires
        old(scrolling).paging_gesture matches Some(paging) ==> paging.ordered(),
    ensures
        *final(scrolling) == constrained(*old(scrolling), direction),
{
    let paging = match scrolling.paging_gesture {
        Some(paging) => paging,
        None => return ,
    };
    let lower = match paging.next_stop {
        Some(stop) => stop,
        None => paging.start_stop,
    };
    let upper = match paging.previous_stop {
        Some(stop) => stop,
        None => paging.start_stop,
    };
    let before = scrolling.position;
    scrolling.position = before.clamp(lower, upper);
    if let Some(target) = scrolling.target_position {
        scrolling.target_position = Some(target.clamp(lower, upper));
    }
    let velocity = match direction {
        SwipeGestureDirection::Natural => scrolling.velocity.negated(),
        SwipeGestureDirection::Reversed => scrolling.velocity,
    };
    let zero = Number::zero();
    if before.less_than(lower) && velocity.less_than(zero) || upper.less_than(before)
        && zero.less_than(velocity) {
        scrolling.velocity = zero;
    }
}

/// A strip whose offset is a number is kept between the stops of its gesture,
/// and so is where it is to go.
pub proof fn law_motion_stays_between_stops(scrolling: Scrolling, direction: SwipeGestureDirection)
    requires
        scrolling.paging_gesture matches Some(paging) && paging.ordered(),
        !scrolling.position.is_nan(),
        scrolling.target_position matches Some(target) ==> !target.is_nan(),
    ensures
        ({
            let paging = scrolling.paging_gesture->0;
            let after = constrained(scrolling, direction);
            &&& paging.lower().at_most(after.position)
            &&& after.position.at_most(paging.upper())
            &&& after.target_position matches Some(target) ==> paging.lower().at_most(target)
                && target.at_most(paging.upper())
            &&& after.paging_gesture == scrolling.paging_gesture
        }),
{
}

/// Where a gesture that is let go ends.
#[derive(Clone, Copy, Debug, PartialEq, Eq, Structural)]
pub enum Hop {
    Start,
    Previous,
    Next,
}

/// How far the strip is from the stops of its gesture when it is let go.
#[derive(Clone, Copy, Debug)]
pub struct Release {
    /// The strip's offset less that of the stop where the gesture started.
    pub displacement: Number,
    /// The strip's offset less that of the previous stop, if there is one.
    pub from_previous: Option<Number>,
    /// The strip's offset less that of the next stop, if there is one.
    pub from_next: Option<Number>,
    /// How far the strip must have moved to go on to the previous stop.
    pub previous_threshold: Number,
    /// How far the strip must have moved to go on to the next stop.
    pub next_threshold: Number,
    /// How fast the strip moves along the offsets.
    pub velocity: Number,
}

/// The distance is one at which a stop holds the strip.
pub open spec fn holds(distance: Number) -> bool {
    distance.spec_abs().at_most(sticky_distance())
}

impl Release {
    /// The stop that holds the strip: the nearest of those that are close
    /// enough, and of equally near ones the start before the previous before
    /// the next.
    pub open spec fn held(self) -> Option<Hop> {
        let start = self.displacement;
        let best = if holds(start) {
            Some((Hop::Start, start))
        } else {
            None
        };
        let better = match (self.from_previous, best) {
            (Some(d), None) => if holds(d) {
                Some((Hop::Previous, d))
            } else {
                None
            },
            (Some(d), Some((_, b))) => if holds(d) && d.spec_abs().bits < b.spec_abs().bits {
                Some((Hop::Previous, d))
            } else {
                best
            },
            (None, _) => best,
        };
        match (self.from_next, better) {
            (Some(d), None) => if holds(d) {
                Some(Hop::Next)
            } else {
                None
            },
            (Some(d), Some((hop, b))) => if holds(d) && d.spec_abs().bits < b.spec_abs().bits {
                Some(Hop::Next)
            } else {
                Some(hop)
            },
            (None, Some((hop, _))) => Some(hop),
            (None, None) => None,
        }
    }

    /// The stop that the strip has moved far enough toward.
    pub open spec fn reached(self) -> Option<Hop> {
        let zero = Number { bits: 0 };
        if zero.below(self.displacement) {
            if self.from_previous is Some && self.previous_threshold.at_most(
                self.displacement.spec_abs(),
            ) {
                Some(Hop::Previous)
            } else {
                None
            }
        } else if self.displacement.below(zero) {
            if self.from_next is Some && self.next_threshold.at_most(
                self.displacement.spec_abs(),
            ) {
                Some(Hop::Next)
            } else {
                None
            }
        } else {
            None
        }
    }

    /// The stop that the strip was flung toward.
    pub open spec fn flung(self) -> Option<Hop> {
        let zero = Number { bits: 0 };
        if !fling_velocity().at_most(self.velocity.spec_abs()) {
            None
        } else if zero.below(self.velocity) && self.from_previous is Some {
            Some(Hop::Previous)
        } else if self.velocity.below(zero) && self.from_next is Some {
            Some(Hop::Next)
        } else {
            None
        }
    }

    /// Where the gesture ends: at a stop that holds the strip, else at the one
    /// that it moved far enough toward, else at the one that it was flung
    /// toward, else where it started.
    pub open spec fn hop(self) -> Hop {
        match (self.held(), self.reached(), self.flung()) {
            (Some(hop), _, _) => hop,
            (None, Some(hop), _) => hop,
            (None, None, Some(hop)) => hop,
            (None, None, None) => Hop::Start,
        }
    }
}

/// Where a gesture that is let go ends.
pub fn snap_target(release: &Release) -> (hop: Hop)
    ensures
        hop == release.hop(),
{
    let zero = Number::zero();
    let close = Number { bits: 0x4040_0000_0000_0000 };
    let mut best: Option<(Hop, Number)> = None;
    if release.displacement.abs().no_more_than(close) {
        best = Some((Hop::Start, release.displacement));
    }
    if let Some(d) = release.from_previous {
        if d.abs().no_more_than(close) {
            match best {
                None => best = Some((Hop::Previous, d)),
                Some((_, b)) => {
                    if d.abs().bits < b.abs().bits {
                        best = Some((Hop::Previous, d));
                    }
                },
            }
        }
    }
    if let Some(d) = release.from_next {
        if d.abs().no_more_than(close) {
            match best {
                None => best = Some((Hop::Next, d)),
                Some((_, b)) => {
                    if d.abs().bits < b.abs().bits {
                        best = Some((Hop::Next, d));
                    }
                },
            }
        }
    }
    if let Some((hop, _)) = best {
        return hop;
    }
    let moved = release.displacement.abs();
    if zero.less_than(release.displacement) {
        if release.from_previous.is_some() && release.previous_threshold.no_more_than(moved) {
            return Hop::Previous;
        }
    } else if release.displacement.less_than(zero) {
        if release.from_next.is_some() && release.next_threshold.no_more_than(moved) {
            return Hop::Next;
        }
    }
    let fling = Number { bits: 0x3FE0_0000_0000_0000 };
    if fling.no_more_than(release.velocity.abs()) {
        if zero.less_than(release.velocity) && release.from_previous.is_some() {
            return Hop::Previous;
        }
        if release.velocity.less_than(zero) && release.from_next.is_some() {
            return Hop::Next;
        }
    }
    Hop::Start
}

/// A gesture never ends at a stop that it does not have, so it goes one stop
/// at most.
pub proof fn law_release_goes_one_hop(release: Release)
    ensures
        release.hop() == Hop::Previous ==> release.from_previous is Some,
        release.hop() == Hop::Next ==> release.from_next is Some,
{
}

/// The strip has come to rest: no fingers, no swiping, no target, and too slow
/// to be flung.
pub open spec fn at_rest(scrolling: Scrolling) -> bool {
    &&& !scrolling.gesture_active
    &&& !scrolling.is_user_swiping
    &&& scrolling.velocity.spec_abs().at_most(fling_velocity())
    &&& scrolling.target_position is None
}

/// Whether the strip is ready to snap.
pub fn ready_to_snap(scrolling: &Scrolling) -> (ready: bool)
    ensures
        ready == at_rest(*scrolling),
{
    !scrolling.gesture_active && !scrolling.is_user_swiping && scrolling.velocity.abs().no_more_than(
        Number { bits: 0x3FE0_0000_0000_0000 },
    ) && scrolling.target_position.is_none()
}

/// Where a column is on the strip and how wide it is, if both are known.
pub open spec fn measured() -> spec_fn(ColumnMetrics) -> Option<(i32, i32)> {
    |column: ColumnMetrics|
        match (column.position, column.width) {
            (Some(position), Some(width)) => Some((position, width)),
            _ => None,
        }
}

/// The columns that a strip can stop at: those of which it is known where they are
/// and how wide they are.
pub fn paging_columns(columns: &Vec<ColumnMetrics>) -> (known: Vec<(i32, i32)>)
    ensures
        known@ == columns@.filter_map(measured()),
{
    let ghost f = measured();
    let mut known: Vec<(i32, i32)> = Vec::new();
    let mut i: usize = 0;
    assert(columns@.take(0).filter_map(f) =~= Seq::empty());
    while i < columns.len()
        invariant
            i <= columns.len(),
            f == measured(),
            known@ == columns@.take(i as int).filter_map(f),
        decreases columns.len() - i,
    {
        proof {
            columns@.lemma_filter_map_take_succ(f, i as int);
        }
        match (columns[i].position, columns[i].width) {
            (Some(position), Some(width)) => known.push((position, width)),
            _ => {},
        }
        assert(known@ =~= columns@.take(i + 1).filter_map(f));
        i = i + 1;
    }
    assert(columns@.take(i as int) =~= columns@);
    known
}

} // verus!
