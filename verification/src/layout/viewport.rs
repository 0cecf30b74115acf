//! From the places on a strip to places on a display.
use vstd::prelude::*;

use crate::config::swipe::SwipeGestureDirection;
use crate::geometry;
use crate::geometry::{Entity, IRect, IVec2};
use crate::layout;
use crate::layout::positions;
use crate::layout::positions::Placement;
use crate::layout::{Column, ColumnModel, LayoutStrip};
use crate::scroll::paging;
use crate::scroll::viewport;
use crate::scroll::viewport::ColumnMetrics;

verus! {

/// How far a shift moves the strip: natural swiping moves it along.
pub open spec fn directed(shift: int, direction: SwipeGestureDirection) -> int {
    match direction {
        SwipeGestureDirection::Natural => shift,
        SwipeGestureDirection::Reversed => -shift,
    }
}

/// The offsets between which a shifted strip stays: with continuous swiping
/// those at which the last window reaches the left edge and the second one the
/// right edge; otherwise those at which the strip is aligned with one of the
/// viewport's edges.
pub open spec fn shift_bounds(columns: Seq<ColumnMetrics>, viewport: IRect, continuous: bool) -> (
    int,
    int,
) {
    let total = viewport::strip_width(columns)->0;
    if continuous && columns.len() > 1 && columns[1].position is Some {
        (
            viewport.min.x - columns.last().position->0,
            viewport.max.x - columns[1].position->0,
        )
    } else if viewport.spec_width() < total {
        (viewport.max.x - total, viewport.min.x as int)
    } else {
        (viewport.min.x as int, viewport.max.x - total)
    }
}

/// Where a strip is once it was shifted, if its end is known.
pub open spec fn shifted(
    offset: int,
    shift: int,
    columns: Seq<ColumnMetrics>,
    viewport: IRect,
    direction: SwipeGestureDirection,
    continuous: bool,
) -> Option<int> {
    if viewport::strip_width(columns) is None {
        None
    } else {
        let bounds = shift_bounds(columns, viewport, continuous);
        Some(paging::clamped(offset - directed(shift, direction), bounds.0, bounds.1))
    }
}

/// The strip's offset after a shift, kept where its windows are in view.
/// Nothing where the end of the strip is not known.
pub fn clamp_viewport_offset(
    current_offset: i32,
    shift: i32,
    columns: &Vec<ColumnMetrics>,
    viewport: &IRect,
    direction: SwipeGestureDirection,
    continuous_swipe: bool,
) -> (clamped: Option<i32>)
    requires
        viewport::view_fits(columns@, *viewport),
        geometry::fits(directed(shift as int, direction)),
        geometry::fits(current_offset - directed(shift as int, direction)),
        viewport::strip_width(columns@) is Some ==> shift_bounds(
            columns@,
            *viewport,
            continuous_swipe,
        ).0 <= shift_bounds(columns@, *viewport, continuous_swipe).1,
    ensures
        match shifted(
            current_offset as int,
            shift as int,
            columns@,
            *viewport,
            direction,
            continuous_swipe,
        ) {
            Some(offset) => clamped matches Some(c) && c == offset,
            None => clamped is None,
        },
{
    if columns.len() == 0 {
        return None;
    }
    let last: ColumnMetrics = columns[columns.len() - 1];
    let (left_snap, top_width): (i32, i32) = match (last.position, last.top_width) {
        (Some(position), Some(width)) => (position, width),
        _ => return None,
    };
    let total: i32 = left_snap + top_width;
    let moved: i32 = match direction {
        SwipeGestureDirection::Natural => current_offset - shift,
        SwipeGestureDirection::Reversed => current_offset - (-shift),
    };
    let second = if columns.len() > 1 {
        columns[1].position
    } else {
        None
    };
    let continuous_bound = if continuous_swipe {
        second
    } else {
        None
    };
    match continuous_bound {
        Some(right_snap) => Some(
            paging::clamp(moved, viewport.min.x - left_snap, viewport.max.x - right_snap),
        ),
        None => if viewport.width() < total {
            Some(paging::clamp(moved, viewport.max.x - total, viewport.min.x))
        } else {
            Some(paging::clamp(moved, viewport.min.x, viewport.max.x - total))
        },
    }
}

/// A finger that swiped has not been heard of for more than fifty milliseconds.
pub open spec fn has_lifted(is_user_swiping: bool, idle_nanos: u64) -> bool {
    is_user_swiping && idle_nanos > 50_000_000
}

/// Ends the swiping of a strip whose fingers have been lifted. Returns whether
/// that is so, in which case the strip does not move in this frame.
pub fn finger_lifted(is_user_swiping: bool, idle_nanos: u64) -> (lifted: bool)
    ensures
        lifted == has_lifted(is_user_swiping, idle_nanos),
{
    is_user_swiping && idle_nanos > 50_000_000
}

/// What becomes of a strip that is moving.
#[derive(Clone, Copy, Debug, PartialEq, Eq, Structural)]
pub enum ScrollStep {
    /// The fingers have been lifted: it stays in this frame.
    Lifted,
    /// It moves to this offset.
    Moved(i32),
    /// It stops.
    Stopped,
}

/// The step is what follows from a lifted finger, and else from where the strip goes.
pub open spec fn is_step(step: ScrollStep, lifted: bool, to: Option<int>) -> bool {
    if lifted {
        step is Lifted
    } else {
        match to {
            Some(offset) => step matches ScrollStep::Moved(x) && x == offset,
            None => step is Stopped,
        }
    }
}

/// What becomes of a moving strip in a frame. `shift` is how far its speed takes it.
pub fn apply_scroll_physics(
    is_user_swiping: bool,
    idle_nanos: u64,
    current_offset: i32,
    shift: i32,
    columns: &Vec<ColumnMetrics>,
    viewport: &IRect,
    direction: SwipeGestureDirection,
    continuous_swipe: bool,
) -> (step: ScrollStep)
    requires
        viewport::view_fits(columns@, *viewport),
        geometry::fits(directed(shift as int, direction)),
        geometry::fits(current_offset - directed(shift as int, direction)),
        viewport::strip_width(columns@) is Some ==> shift_bounds(
            columns@,
            *viewport,
            continuous_swipe,
        ).0 <= shift_bounds(columns@, *viewport, continuous_swipe).1,
    ensures
        is_step(
            step,
            has_lifted(is_user_swiping, idle_nanos),
            shifted(
                current_offset as int,
                shift as int,
                columns@,
                *viewport,
                direction,
                continuous_swipe,
            ),
        ),
{
    if finger_lifted(is_user_swiping, idle_nanos) {
        return ScrollStep::Lifted;
    }
    match clamp_viewport_offset(
        current_offset,
        shift,
        columns,
        viewport,
        direction,
        continuous_swipe,
    ) {
        Some(offset) => ScrollStep::Moved(offset),
        None => ScrollStep::Stopped,
    }
}

/// The left edge that brings a frame into view: at the right edge of the
/// display where it sticks out there, else at the left one where it sticks out
/// there, else as it is.
pub open spec fn bumped_left(frame: IRect, display: IRect) -> int {
    if frame.max.x > display.max.x {
        display.max.x - frame.spec_width()
    } else if frame.min.x < display.min.x {
        display.min.x as int
    } else {
        frame.min.x as int
    }
}

/// Where the strip is to be so that a window on it is in view: the window's
/// place in view, less its place on the strip.
pub fn reshuffle_layout_strip(frame: &IRect, display_bounds: &IRect, layout_position: IVec2) -> (strip:
    IVec2)
    requires
        frame.measurable(),
        geometry::fits(bumped_left(*frame, *display_bounds)),
        geometry::fits(bumped_left(*frame, *display_bounds) - layout_position.x),
        geometry::fits(frame.min.y - layout_position.y),
    ensures
        strip.x == bumped_left(*frame, *display_bounds) - layout_position.x,
        strip.y == frame.min.y - layout_position.y,
{
    let width: i32 = frame.width();
    let left: i32 = if frame.max.x > display_bounds.max.x {
        display_bounds.max.x - width
    } else if frame.min.x < display_bounds.min.x {
        display_bounds.min.x
    } else {
        frame.min.x
    };
    IVec2 { x: left, y: frame.min.y }.minus(layout_position)
}

/// A window that fits between the edges of the display is in view once the
/// strip is where it is to be.
pub proof fn law_reshuffled_window_is_in_view(frame: IRect, display: IRect)
    requires
        frame.proper(),
        display.proper(),
        frame.spec_width() <= display.spec_width(),
    ensures
        display.min.x <= bumped_left(frame, display),
        bumped_left(frame, display) + frame.spec_width() <= display.max.x,
{
}

/// How windows that are out of view are shown.
#[derive(Clone, Copy, Debug, PartialEq, Eq, Structural)]
pub struct Slivers {
    /// How much of a window that is out of view still shows, in points.
    pub width: i32,
    pub pad_left: i32,
    pub pad_right: i32,
    /// How far windows are moved down while the strip rests.
    pub inset: i32,
}

/// The left edge at which a window is shown: its own, unless it is out of view
/// on one side, where a sliver of it stays in view.
pub open spec fn shown_left(
    left: int,
    width: int,
    viewport: IRect,
    slivers: Slivers,
    h_pad: int,
) -> int {
    if left + width <= viewport.min.x + h_pad {
        viewport.min.x - width + slivers.width - slivers.pad_left + h_pad
    } else if left >= viewport.max.x - h_pad {
        viewport.max.x - slivers.width + slivers.pad_right - h_pad
    } else {
        left
    }
}

/// How far down a window is moved: windows of a stack stay, and so does every
/// window while the user swipes.
pub open spec fn shown_inset(slivers: Slivers, swiping: bool, stacked: bool) -> int {
    if swiping || stacked {
        0
    } else {
        slivers.inset as int
    }
}

/// Where a window of the strip is shown on the display. `place` is its place on
/// the strip, `strip_position` where the strip is.
pub fn position_layout_windows(
    place: &IRect,
    strip_position: IVec2,
    viewport: &IRect,
    slivers: &Slivers,
    h_pad: i32,
    swiping: bool,
    stacked: bool,
) -> (shown: IRect)
    requires
        place.measurable(),
        geometry::fits(place.min.x + strip_position.x),
        geometry::fits(place.max.x + strip_position.x),
        geometry::fits(place.min.y + strip_position.y),
        geometry::fits(place.max.y + strip_position.y),
        geometry::fits(viewport.min.x + h_pad),
        geometry::fits(viewport.max.x - h_pad),
        geometry::fits(viewport.min.x - place.spec_width()),
        geometry::fits(viewport.min.x - place.spec_width() + slivers.width),
        geometry::fits(viewport.min.x - place.spec_width() + slivers.width - slivers.pad_left),
        geometry::fits(
            viewport.min.x - place.spec_width() + slivers.width - slivers.pad_left + h_pad,
        ),
        geometry::fits(viewport.max.x - slivers.width),
        geometry::fits(viewport.max.x - slivers.width + slivers.pad_right),
        geometry::fits(viewport.max.x - slivers.width + slivers.pad_right - h_pad),
        geometry::fits(
            shown_left(
                place.min.x + strip_position.x,
                place.spec_width(),
                *viewport,
                *slivers,
                h_pad as int,
            ) + place.spec_width(),
        ),
        geometry::fits(place.min.y + strip_position.y + shown_inset(*slivers, swiping, stacked)),
        geometry::fits(place.max.y + strip_position.y + shown_inset(*slivers, swiping, stacked)),
    ensures
        shown.min.x == shown_left(
            place.min.x + strip_position.x,
            place.spec_width(),
            *viewport,
            *slivers,
            h_pad as int,
        ),
        shown.min.y == place.min.y + strip_position.y + shown_inset(*slivers, swiping, stacked),
        shown.spec_width() == place.spec_width(),
        shown.spec_height() == place.spec_height(),
{
    let width: i32 = place.width();
    let left: i32 = place.min.x + strip_position.x;
    let right: i32 = place.max.x + strip_position.x;
    let x: i32 = if right <= viewport.min.x + h_pad {
        viewport.min.x - width + slivers.width - slivers.pad_left + h_pad
    } else if left >= viewport.max.x - h_pad {
        viewport.max.x - slivers.width + slivers.pad_right - h_pad
    } else {
        left
    };
    let inset: i32 = if swiping || stacked {
        0
    } else {
        slivers.inset
    };
    IRect {
        min: IVec2 { x, y: place.min.y + strip_position.y + inset },
        max: IVec2 { x: x + width, y: place.max.y + strip_position.y + inset },
    }
}

/// A window's place on the strip and its size.
#[derive(Clone, Copy, Debug, PartialEq, Eq, Structural)]
pub struct LayoutChange {
    pub entity: Entity,
    pub position: IVec2,
    pub size: IVec2,
}

/// The change puts a window into this place.
pub open spec fn puts(change: LayoutChange, place: Placement) -> bool {
    &&& change.entity == place.entity
    &&& change.position.x == place.x
    &&& change.position.y == place.y
    &&& change.size.x == place.width
    &&& change.size.y == place.height
}

/// The changes put the windows into these places.
pub open spec fn are_changes(changes: Seq<LayoutChange>, places: Seq<Placement>) -> bool {
    &&& changes.len() == places.len()
    &&& forall|k: int| 0 <= k < changes.len() ==> puts(#[trigger] changes[k], places[k])
}

/// Widths and heights of all places are numbers that a coordinate can hold.
pub open spec fn sizes_fit(places: Seq<Placement>) -> bool {
    forall|k: int|
        0 <= k < places.len() ==> geometry::fits((#[trigger] places[k]).width) && geometry::fits(
            places[k].height,
        )
}

/// The places and sizes of all windows of a strip that has changed.
pub fn layout_strip_changed<W: Fn(Entity) -> Option<IRect>>(
    strip: &LayoutStrip,
    viewport_height: i32,
    get_window_frame: &W,
) -> (changes: Vec<LayoutChange>)
    requires
        exists|frame: spec_fn(Entity) -> Option<IRect>|
            {
                &&& #[trigger] positions::answers(*get_window_frame, frame)
                &&& positions::layable(strip@, viewport_height as int, frame)
                &&& sizes_fit(positions::places(strip@, viewport_height as int, frame))
            },
    ensures
        forall|frame: spec_fn(Entity) -> Option<IRect>| #[trigger]
            positions::answers(*get_window_frame, frame) ==> are_changes(
                changes@,
                positions::places(strip@, viewport_height as int, frame),
            ),
{
    let ghost frame = choose|frame: spec_fn(Entity) -> Option<IRect>|
        {
            &&& #[trigger] positions::answers(*get_window_frame, frame)
            &&& positions::layable(strip@, viewport_height as int, frame)
            &&& sizes_fit(positions::places(strip@, viewport_height as int, frame))
        };
    let ghost places = positions::places(strip@, viewport_height as int, frame);
    let placed = strip.relative_positions(viewport_height, get_window_frame);
    let mut changes: Vec<LayoutChange> = Vec::new();
    let mut k: usize = 0;
    while k < placed.len()
        invariant
            k <= placed.len(),
            changes.len() == k,
            positions::are_places(placed@, places),
            sizes_fit(places),
            forall|j: int| 0 <= j < k ==> puts(#[trigger] changes@[j], places[j]),
        decreases placed.len() - k,
    {
        let (entity, frame): (Entity, IRect) = placed[k];
        assert(places[k as int].is_frame(placed@[k as int]));
        changes.push(LayoutChange { entity, position: frame.min, size: frame.size() });
        k = k + 1;
    }
    proof {
        assert forall|other: spec_fn(Entity) -> Option<IRect>| #[trigger]
            positions::answers(*get_window_frame, other) implies are_changes(
            changes@,
            positions::places(strip@, viewport_height as int, other),
        ) by {
            let those = positions::places(strip@, viewport_height as int, other);
            assert forall|j: int| 0 <= j < changes.len() implies puts(
                #[trigger] changes@[j],
                those[j],
            ) by {
                assert(puts(changes@[j], places[j]));
                assert(places[j].is_frame(placed@[j]) && those[j].is_frame(placed@[j]));
            }
        }
    }
    changes
}

/// The window is in a stack.
pub open spec fn stands_in_a_stack(columns: Seq<ColumnModel>, entity: Entity) -> bool {
    layout::index(columns, entity) is Some && columns[layout::index(columns, entity)->0] is Stack
}

/// Whether a window shares its column of the strip with others.
pub fn is_stacked(strip: &LayoutStrip, entity: Entity) -> (stacked: bool)
    ensures
        stacked <==> stands_in_a_stack(strip@, entity),
{
    match strip.index_of(entity) {
        Ok(i) => match strip.get(i) {
            Ok(Column::Stack(_)) => true,
            _ => false,
        },
        Err(_) => false,
    }
}

/// Some of the windows is on the strip.
pub open spec fn concerns(strip: LayoutStrip, windows: Seq<Entity>) -> bool {
    exists|i: int| 0 <= i < windows.len() && layout::index(strip@, #[trigger] windows[i]) is Some
}

/// The places of all windows of a strip, where the size of one of them has changed.
pub fn layout_sizes_changed<W: Fn(Entity) -> Option<IRect>>(
    changed: &Vec<Entity>,
    strip: &LayoutStrip,
    viewport_height: i32,
    get_window_frame: &W,
) -> (placed: Option<Vec<(Entity, IRect)>>)
    requires
        exists|frame: spec_fn(Entity) -> Option<IRect>| #[trigger]
            positions::answers(*get_window_frame, frame) && positions::layable(
                strip@,
                viewport_height as int,
                frame,
            ),
    ensures
        placed is Some <==> concerns(*strip, changed@),
        placed is Some ==> forall|frame: spec_fn(Entity) -> Option<IRect>| #[trigger]
            positions::answers(*get_window_frame, frame) ==> positions::are_places(
                placed->0@,
                positions::places(strip@, viewport_height as int, frame),
            ),
{
    let mut i: usize = 0;
    while i < changed.len()
        invariant
            i <= changed.len(),
            exists|frame: spec_fn(Entity) -> Option<IRect>| #[trigger]
                positions::answers(*get_window_frame, frame) && positions::layable(
                    strip@,
                    viewport_height as int,
                    frame,
                ),
            forall|j: int| 0 <= j < i ==> layout::index(strip@, #[trigger] changed@[j]) is None,
        decreases changed.len() - i,
    {
        if strip.index_of(changed[i]).is_ok() {
            return Some(strip.relative_positions(viewport_height, get_window_frame));
        }
        i = i + 1;
    }
    None
}

/// The windows of a strip.
pub open spec fn windows_of() -> spec_fn(LayoutStrip) -> Seq<Entity> {
    |strip: LayoutStrip| layout::all_windows(strip@)
}

/// The windows of the strips that have moved, which are to be placed anew.
pub fn position_layout_strips(moved: &Vec<LayoutStrip>) -> (windows: Vec<Entity>)
    ensures
        windows@ == moved@.map_values(windows_of()).flatten(),
{
    let mut windows: Vec<Entity> = Vec::new();
    let mut i: usize = 0;
    assert(moved@.take(0).map_values(windows_of()) =~= Seq::empty());
    assert(Seq::<Seq<Entity>>::empty().flatten() =~= Seq::empty());
    while i < moved.len()
        invariant
            i <= moved.len(),
            windows@ == moved@.take(i as int).map_values(windows_of()).flatten(),
        decreases moved.len() - i,
    {
        proof {
            let lists = moved@.take(i as int).map_values(windows_of());
            assert(moved@.take(i + 1).map_values(windows_of()) =~= lists.push(
                layout::all_windows(moved@[i as int]@),
            ));
            lists.lemma_flatten_push(layout::all_windows(moved@[i as int]@));
        }
        let mut more = moved[i].all_windows();
        windows.append(&mut more);
        i = i + 1;
    }
    assert(moved@.take(i as int) =~= moved@);
    windows
}

} // verus!
