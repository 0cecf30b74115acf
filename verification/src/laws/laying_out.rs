//! Where the columns of a strip and the windows in them are put.
use vstd::prelude::*;

use crate::config::swipe::SwipeGestureDirection;
use crate::geometry::{Entity, IRect};
use crate::laws::places;
use crate::laws::scrolling;
use crate::laws::strips as on_strip;
use crate::layout;
use crate::layout::positions;
use crate::layout::positions::Placement;
use crate::layout::viewport as view;
use crate::layout::viewport::{LayoutChange, ScrollStep, Slivers};
use crate::layout::{ColumnModel, LayoutStrip};
use crate::scroll::viewport::ColumnMetrics;
use crate::search;

verus! {

/// Natural swiping moves a strip back by the shift and reversed swiping moves it on, as
/// far as the ends allow: with continuous swiping the last window stays at the left edge
/// or right of it, and the second one at the right edge or left of it.
pub proof fn law_shift_moves_the_strip(
    offset: int,
    shift: int,
    columns: Seq<ColumnMetrics>,
    viewport: IRect,
    reversed: bool,
)
    requires
        scrolling::has_end(columns),
    ensures
        ({
            let direction = if reversed {
                SwipeGestureDirection::Reversed
            } else {
                SwipeGestureDirection::Natural
            };
            let wanted = if reversed {
                offset + shift
            } else {
                offset - shift
            };
            let first = viewport.min.x - columns[columns.len() - 1].position->0;
            let last = viewport.max.x - columns[1].position->0;
            let end = viewport.max.x - scrolling::right_end(columns);
            &&& columns.len() > 1 && columns[1].position is Some && first <= last
                ==> scrolling::rests_between(
                view::shifted(offset, shift, columns, viewport, direction, true),
                wanted,
                first,
                last,
            )
            &&& viewport.measurable() && (scrolling::right_end(columns) > viewport.max.x
                - viewport.min.x) && end <= viewport.min.x ==> scrolling::rests_between(
                view::shifted(offset, shift, columns, viewport, direction, false),
                wanted,
                end,
                viewport.min.x as int,
            )
            &&& viewport.measurable() && (scrolling::right_end(columns) <= viewport.max.x
                - viewport.min.x) && viewport.min.x <= end ==> scrolling::rests_between(
                view::shifted(offset, shift, columns, viewport, direction, false),
                wanted,
                viewport.min.x as int,
                end,
            )
        }),
{
}

/// A strip whose end is not known is not shifted, and stops.
pub proof fn law_strip_without_end_stops(
    offset: int,
    shift: int,
    columns: Seq<ColumnMetrics>,
    viewport: IRect,
    direction: SwipeGestureDirection,
    continuous: bool,
    step: ScrollStep,
)
    requires
        !scrolling::has_end(columns),
        view::is_step(
            step,
            false,
            view::shifted(offset, shift, columns, viewport, direction, continuous),
        ),
    ensures
        step is Stopped,
{
}

/// A swipe is over when nothing was heard of the finger for more than fifty milliseconds;
/// until then the strip moves to where it is shifted.
pub proof fn law_lifted_finger_ends_the_swipe(step: ScrollStep, nanos: u64, to: Option<int>)
    ensures
        view::has_lifted(true, nanos) <==> nanos > 50_000_000,
        !view::has_lifted(false, nanos),
        view::is_step(step, true, to) <==> step is Lifted,
        to is Some ==> (view::is_step(step, false, to) ==> step is Moved && step->Moved_0
            == to->0),
{
}

/// A window that is in view stays where it is; one that sticks out on one side is brought
/// to that side's edge.
pub proof fn law_window_is_bumped_into_view(frame: IRect, display: IRect)
    ensures
        display.min.x <= frame.min.x && frame.max.x <= display.max.x ==> view::bumped_left(
            frame,
            display,
        ) == frame.min.x,
        frame.max.x > display.max.x ==> view::bumped_left(frame, display) + (frame.max.x
            - frame.min.x) == display.max.x,
        frame.max.x <= display.max.x && frame.min.x < display.min.x ==> view::bumped_left(
            frame,
            display,
        ) == display.min.x,
{
}

/// A window that is in view is shown where it is. Of one that is out of view a sliver is
/// shown: its right end at the left edge, or its left end at the right edge.
pub proof fn law_window_out_of_view_shows_a_sliver(
    left: int,
    width: int,
    viewport: IRect,
    slivers: Slivers,
    h_pad: int,
)
    ensures
        ({
            let shown = view::shown_left(left, width, viewport, slivers, h_pad);
            let (low, high) = (viewport.min.x + h_pad, viewport.max.x - h_pad);
            &&& left + width > low && left < high ==> shown == left
            &&& left + width <= low ==> shown + width == low + slivers.width - slivers.pad_left
            &&& left + width > low && left >= high ==> shown == high - slivers.width
                + slivers.pad_right
        }),
        view::shown_inset(slivers, false, false) == slivers.inset,
        view::shown_inset(slivers, true, false) == 0,
        view::shown_inset(slivers, false, true) == 0,
{
}

/// A window is in a stack just where its column is one.
pub proof fn law_stacked_window_is_in_a_stack(
    columns: Seq<ColumnModel>,
    entity: Entity,
    i: int,
    p: int,
)
    ensures
        places::only_at(columns, entity, i, p) ==> (view::stands_in_a_stack(columns, entity)
            <==> columns[i] is Stack),
        places::is_absent(columns, entity) ==> !view::stands_in_a_stack(columns, entity),
{
    if places::only_at(columns, entity, i, p) {
        places::law_window_is_found_where_it_stands(columns, entity, i, p);
    }
    if places::is_absent(columns, entity) {
        places::law_absent_window_is_not_found(columns, entity);
    }
}

/// A strip is laid out again when the size of one of its windows changes, and not for
/// windows that are not on it.
pub proof fn law_sizes_concern_their_strip(
    strip: LayoutStrip,
    windows: Seq<Entity>,
    entity: Entity,
    i: int,
    p: int,
)
    ensures
        places::only_at(strip@, entity, i, p) ==> view::concerns(strip, windows.push(entity)),
        places::is_absent(strip@, entity) ==> (view::concerns(strip, windows.push(entity))
            <==> view::concerns(strip, windows)),
        !view::concerns(strip, Seq::empty()),
{
    let more = windows.push(entity);
    assert(more[windows.len() as int] == entity);
    if places::only_at(strip@, entity, i, p) {
        places::law_window_is_found_where_it_stands(strip@, entity, i, p);
    }
    if places::is_absent(strip@, entity) {
        places::law_absent_window_is_not_found(strip@, entity);
        if view::concerns(strip, windows) {
            let k = choose|k: int|
                0 <= k < windows.len() && layout::index(strip@, #[trigger] windows[k]) is Some;
            assert(more[k] == windows[k]);
        }
        if view::concerns(strip, more) {
            let k = choose|k: int|
                0 <= k < more.len() && layout::index(strip@, #[trigger] more[k]) is Some;
            assert(windows[k] == more[k]);
        }
    }
}

/// The columns of a strip whose windows all have a frame stand side by side from the left
/// end on: each begins where the one before it ends.
pub proof fn law_columns_stand_side_by_side(
    columns: Seq<ColumnModel>,
    frame: spec_fn(Entity) -> Option<IRect>,
    k: int,
)
    requires
        places::all_filled(columns),
        forall|i: int|
            0 <= i < columns.len() ==> places::only_at(
                columns,
                (#[trigger] columns[i]).windows()[0],
                i,
                0,
            ),
        forall|i: int|
            0 <= i < columns.len() ==> frame((#[trigger] columns[i]).windows()[0]) is Some,
        0 <= k < columns.len(),
    ensures
        ({
            let edges = positions::column_edges(columns, frame);
            let top = frame(columns[k].windows()[0])->0;
            &&& edges.len() == columns.len()
            &&& edges[k].0 == columns[k]
            &&& k == 0 ==> edges[k].1 == 0
            &&& k + 1 < columns.len() ==> edges[k + 1].1 == edges[k].1 + (top.max.x - top.min.x)
        }),
{
    let tops = layout::tops(columns);
    let f = positions::has_frame(frame);
    on_strip::law_tops_are_the_first_of_each_column(columns);
    assert forall|i: int| 0 <= i < tops.len() implies f(#[trigger] tops[i]) by {
        assert(tops[i] == columns[i].windows()[0]);
    }
    lemma_all_pass(tops, f);
    let leaders = positions::leaders(columns, frame);
    assert(leaders == tops);
    assert(leaders[k] == columns[k].windows()[0]);
    assert(places::only_at(columns, columns[k].windows()[0], k, 0));
    places::law_window_is_found_where_it_stands(columns, leaders[k], k, 0);
    assert(leaders.take(0) =~= Seq::empty());
    if k + 1 < columns.len() {
        assert(leaders.take(k + 1).drop_last() =~= leaders.take(k));
    }
}

/// Where every element passes, a filter changes nothing.
proof fn lemma_all_pass<A>(s: Seq<A>, p: spec_fn(A) -> bool)
    requires
        forall|i: int| 0 <= i < s.len() ==> p(#[trigger] s[i]),
    ensures
        s.filter(p) == s,
    decreases s.len(),
{
    reveal(Seq::filter);
    if s.len() > 0 {
        let front = s.drop_last();
        assert forall|i: int| 0 <= i < front.len() implies p(#[trigger] front[i]) by {
            assert(front[i] == s[i]);
        }
        lemma_all_pass(front, p);
        assert(p(s.last()));
        assert(front.push(s.last()) =~= s);
    }
}

/// The windows of a strip are put where its columns put them, and nowhere else.
pub proof fn law_windows_go_where_their_column_is(
    columns: Seq<ColumnModel>,
    height: int,
    frame: spec_fn(Entity) -> Option<IRect>,
    place: Placement,
)
    ensures
        positions::places(columns, height, frame).contains(place) <==> exists|k: int|
            0 <= k < positions::column_edges(columns, frame).len() && positions::column_places(
                #[trigger] positions::column_edges(columns, frame)[k],
                height,
                frame,
            ).contains(place),
{
    let edges = positions::column_edges(columns, frame);
    let f = |edge: (ColumnModel, int)| positions::column_places(edge, height, frame);
    let lists = edges.map_values(f);
    search::lemma_flatten_contains(lists, place);
    if positions::places(columns, height, frame).contains(place) {
        let k = choose|k: int| 0 <= k < lists.len() && (#[trigger] lists[k]).contains(place);
        assert(lists[k] == positions::column_places(edges[k], height, frame));
    }
    if exists|k: int|
        0 <= k < edges.len() && positions::column_places(
            #[trigger] edges[k],
            height,
            frame,
        ).contains(place) {
        let k = choose|k: int|
            0 <= k < edges.len() && positions::column_places(
                #[trigger] edges[k],
                height,
                frame,
            ).contains(place);
        assert(lists[k] == positions::column_places(edges[k], height, frame));
    }
}

/// Where strips moved, all their windows are put anew, strip by strip.
pub proof fn law_moved_strips_take_their_windows(moved: Seq<LayoutStrip>, strip: LayoutStrip)
    ensures
        Seq::<LayoutStrip>::empty().map_values(view::windows_of()).flatten() == Seq::<
            Entity,
        >::empty(),
        moved.push(strip).map_values(view::windows_of()).flatten() == moved.map_values(
            view::windows_of(),
        ).flatten() + layout::all_windows(strip@),
{
    let f = view::windows_of();
    assert(moved.push(strip).map_values(f) =~= moved.map_values(f).push(
        layout::all_windows(strip@),
    ));
    moved.map_values(f).lemma_flatten_push(layout::all_windows(strip@));
    assert(Seq::<LayoutStrip>::empty().map_values(f) =~= Seq::empty());
}

/// The windows of a strip come column by column, each from its top.
pub proof fn law_windows_come_column_by_column(columns: Seq<ColumnModel>, column: ColumnModel)
    ensures
        layout::all_windows(Seq::empty()) == Seq::<Entity>::empty(),
        layout::all_windows(columns.push(column)) == layout::all_windows(columns)
            + column.windows(),
{
    let f = |c: ColumnModel| c.windows();
    assert(columns.push(column).map_values(f) =~= columns.map_values(f).push(column.windows()));
    columns.map_values(f).lemma_flatten_push(column.windows());
    assert(Seq::<ColumnModel>::empty().map_values(f) =~= Seq::empty());
}

/// A frame covers its place: it begins at the place's corner and is as wide and high.
pub proof fn law_frames_cover_their_places(
    placed: Seq<(Entity, IRect)>,
    model: Seq<Placement>,
    k: int,
)
    requires
        positions::are_places(placed, model),
        0 <= k < model.len(),
    ensures
        placed.len() == model.len(),
        placed[k].0 == model[k].entity,
        placed[k].1.min.x == model[k].x,
        placed[k].1.min.y == model[k].y,
        placed[k].1.max.x - placed[k].1.min.x == model[k].width,
        placed[k].1.max.y - placed[k].1.min.y == model[k].height,
{
    assert(model[k].is_frame(placed[k]));
}

/// A change of the layout puts a window at its place with its size.
pub proof fn law_changes_put_windows_in_place(
    changes: Seq<LayoutChange>,
    model: Seq<Placement>,
    k: int,
)
    requires
        view::are_changes(changes, model),
        0 <= k < model.len(),
    ensures
        changes.len() == model.len(),
        changes[k].entity == model[k].entity,
        changes[k].position.x == model[k].x && changes[k].position.y == model[k].y,
        changes[k].size.x == model[k].width && changes[k].size.y == model[k].height,
{
    assert(view::puts(changes[k], model[k]));
}

} // verus!
