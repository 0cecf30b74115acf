//! Windows that did not become as large as they were asked to.
use core::cmp::Ordering;
use vstd::prelude::*;

use crate::geometry::{fits, Entity, IRect, IVec2};
use crate::layout;
use crate::layout::positions;
use crate::layout::positions::{ask, read};
use crate::layout::{ColumnModel, LayoutStrip};
use crate::search;

verus! {

/// There is more than was asked for, by more than a point.
pub open spec fn is_more(actual: i32, expected: i32) -> bool {
    expected - actual < -1
}

/// There is less than was asked for, by more than a point.
pub open spec fn is_less(actual: i32, expected: i32) -> bool {
    expected - actual > 1
}

/// The size is as asked for, but for a point.
pub open spec fn is_same(actual: i32, expected: i32) -> bool {
    -1 <= expected - actual <= 1
}

/// How the size that was asked for compares with the one there is. The system
/// likes even numbers, so one point more or less counts as the same.
pub fn fuzzy_equal(actual_size: i32, expected_size: i32) -> (order: Ordering)
    requires
        fits(expected_size - actual_size),
    ensures
        order is Less <==> is_more(actual_size, expected_size),
        order is Greater <==> is_less(actual_size, expected_size),
        order is Equal <==> is_same(actual_size, expected_size),
{
    let diff: i32 = expected_size - actual_size;
    if diff < -1 {
        Ordering::Less
    } else if diff > 1 {
        Ordering::Greater
    } else {
        Ordering::Equal
    }
}

/// Swapping the two sizes turns the answer round.
pub proof fn law_fuzzy_equal_is_symmetric(a: i32, b: i32)
    ensures
        is_more(a, b) <==> is_less(b, a),
        is_same(a, b) <==> is_same(b, a),
{
}

/// Whether there is more than was asked for, and whether the size is as asked.
fn judge(actual: i32, expected: i32) -> (verdict: (bool, bool))
    requires
        fits(expected - actual),
    ensures
        verdict.0 == is_more(actual, expected),
        verdict.1 == is_same(actual, expected),
{
    match fuzzy_equal(actual, expected) {
        Ordering::Less => (true, false),
        Ordering::Equal => (false, true),
        Ordering::Greater => (false, false),
    }
}

/// Width and height are as asked for, but for a point.
pub open spec fn is_as_asked(actual: IVec2, expected: IVec2) -> bool {
    is_same(actual.x, expected.x) && is_same(actual.y, expected.y)
}

/// The columns with a window.
pub open spec fn column_with(entity: Entity) -> spec_fn(Seq<ColumnModel>) -> bool {
    |columns: Seq<ColumnModel>| layout::index(columns, entity) is Some
}

/// What some strips hold.
pub open spec fn strips_view(strips: Seq<LayoutStrip>) -> Seq<Seq<ColumnModel>> {
    strips.map_values(|s: LayoutStrip| s@)
}

/// The column that a window is in, on the first strip that holds it.
pub open spec fn column_of(strips: Seq<Seq<ColumnModel>>, entity: Entity) -> Option<ColumnModel> {
    match search::first_index(strips, column_with(entity)) {
        Some(i) => Some(strips[i][layout::index(strips[i], entity)->0]),
        None => None,
    }
}

/// The other windows of a column that are narrower than it, each with the size
/// that fills the gap.
pub open spec fn widened(
    entity: Entity,
    width: i32,
    height: i32,
    frame: spec_fn(Entity) -> Option<IRect>,
) -> spec_fn(Entity) -> Option<(Entity, IVec2)> {
    |other: Entity|
        if other != entity && frame(other) is Some && frame(other)->0.spec_width() < width {
            Some((other, IVec2 { x: width, y: height }))
        } else {
            None
        }
}

/// The windows that are resized because one did not become as narrow as it was
/// asked to: the narrower ones of its column.
pub open spec fn fill_column(
    entity: Entity,
    actual: IVec2,
    expected: IVec2,
    strips: Seq<Seq<ColumnModel>>,
    column_width: Option<i32>,
    frame: spec_fn(Entity) -> Option<IRect>,
) -> Seq<(Entity, IVec2)> {
    let column = column_of(strips, entity);
    if is_more(actual.x, expected.x) && column is Some && column_width is Some {
        column->0.windows().filter_map(widened(entity, column_width->0, actual.y, frame))
    } else {
        Seq::empty()
    }
}

/// The frames of the windows of a window's column can be measured.
pub open spec fn can_measure_column(
    strips: Seq<Seq<ColumnModel>>,
    entity: Entity,
    frame: spec_fn(Entity) -> Option<IRect>,
) -> bool {
    column_of(strips, entity) matches Some(column) ==> positions::all_measurable(
        column.windows(),
        frame,
    )
}

/// The windows of the column that a window is in.
fn column_windows(strips: &Vec<LayoutStrip>, entity: Entity) -> (windows: Option<Vec<Entity>>)
    ensures
        windows is Some == column_of(strips_view(strips@), entity) is Some,
        windows is Some ==> windows->0@ == column_of(strips_view(strips@), entity)->0.windows(),
{
    let ghost view = strips_view(strips@);
    let ghost p = column_with(entity);
    let mut i: usize = 0;
    while i < strips.len()
        invariant
            i <= strips.len(),
            view == strips_view(strips@),
            p == column_with(entity),
            forall|j: int| 0 <= j < i ==> !p(#[trigger] view[j]),
        decreases strips.len() - i,
    {
        assert(view[i as int] == strips@[i as int]@);
        if let Ok(index) = strips[i].index_of(entity) {
            if let Ok(column) = strips[i].get(index) {
                proof {
                    search::lemma_first_index(view, p, i as int);
                }
                return Some(column.windows());
            }
        }
        i = i + 1;
    }
    proof {
        search::lemma_no_first_index(view, p);
    }
    None
}

/// Notes the size that a window really has after it was asked for another. If it
/// stayed wider than asked, the other windows of its column are made as wide as
/// the column, whose width is `column_width`: those are returned. A window whose
/// place is not ours, or that does not tell its size, is left alone.
pub fn window_resize_verifier<W: Fn(Entity) -> Option<IRect>>(
    entity: Entity,
    owns_geometry: bool,
    actual: Option<IVec2>,
    bounds: &mut IVec2,
    strips: &Vec<LayoutStrip>,
    column_width: Option<i32>,
    get_window_frame: &W,
) -> (resized: Vec<(Entity, IVec2)>)
    requires
        exists|frame: spec_fn(Entity) -> Option<IRect>| #[trigger]
            positions::answers(*get_window_frame, frame) && can_measure_column(
                strips_view(strips@),
                entity,
                frame,
            ),
        actual is Some ==> fits(old(bounds).x - actual->0.x) && fits(old(bounds).y - actual->0.y),
    ensures
        !owns_geometry || actual is None || is_as_asked(actual->0, *old(bounds)) ==> *final(bounds)
            == *old(bounds) && resized@ == Seq::<(Entity, IVec2)>::empty(),
        owns_geometry && actual is Some && !is_as_asked(actual->0, *old(bounds)) ==> *final(bounds)
            == actual->0 && forall|frame: spec_fn(Entity) -> Option<IRect>| #[trigger]
            positions::answers(*get_window_frame, frame) ==> resized@ == fill_column(
                entity,
                actual->0,
                *old(bounds),
                strips_view(strips@),
                column_width,
                frame,
            ),
{
    let ghost given = choose|frame: spec_fn(Entity) -> Option<IRect>| #[trigger]
        positions::answers(*get_window_frame, frame) && can_measure_column(
            strips_view(strips@),
            entity,
            frame,
        );
    let mut resized: Vec<(Entity, IVec2)> = Vec::new();
    if !owns_geometry {
        return resized;
    }
    let actual_size = match actual {
        Some(size) => size,
        None => return resized,
    };
    let expected_size = *bounds;
    let (too_wide, same_width) = judge(actual_size.x, expected_size.x);
    let (_, same_height) = judge(actual_size.y, expected_size.y);
    if same_width && same_height {
        return resized;
    }
    *bounds = actual_size;
    if !too_wide {
        return resized;
    }
    let (windows, width) = match (column_windows(strips, entity), column_width) {
        (Some(windows), Some(width)) => (windows, width),
        _ => return resized,
    };
    let others = layout::others(&windows, entity);
    let table = ask(&others, get_window_frame);
    proof {
        let f = positions::noted(table@);
        assert forall|e: Entity| #[trigger] windows@.contains(e) && e != entity implies others@.contains(
            e,
        ) by {
            windows@.lemma_filter_contains(layout::is_not(entity), windows@.index_of(e));
        }
        assert forall|e: Entity| #[trigger] others@.contains(e) implies windows@.contains(e) by {
            windows@.lemma_filter_contains_rev(layout::is_not(entity), e);
        }
        assert forall|frame: spec_fn(Entity) -> Option<IRect>| #[trigger]
            positions::answers(*get_window_frame, frame) implies windows@.filter_map(
            widened(entity, width, actual_size.y, f),
        ) == windows@.filter_map(widened(entity, width, actual_size.y, frame)) by {
            assert forall|i: int| 0 <= i < windows@.len() implies widened(
                entity,
                width,
                actual_size.y,
                f,
            )(#[trigger] windows@[i]) == widened(entity, width, actual_size.y, frame)(windows@[i]) by {
                assert(windows@.contains(windows@[i]));
                if windows@[i] != entity {
                    assert(others@.contains(windows@[i]));
                }
            }
            search::lemma_filter_map_same(
                windows@,
                widened(entity, width, actual_size.y, f),
                widened(entity, width, actual_size.y, frame),
            );
        }
        assert(positions::agree(others@, f, given));
        assert(positions::all_measurable(others@, f));
    }
    widen_others(entity, &windows, width, actual_size.y, &table)
}

/// The other windows of a column that are narrower than it, where the table holds
/// their frames.
fn widen_others(
    entity: Entity,
    windows: &Vec<Entity>,
    width: i32,
    height: i32,
    table: &Vec<(Entity, Option<IRect>)>,
) -> (resized: Vec<(Entity, IVec2)>)
    requires
        positions::all_measurable(
            windows@.filter(layout::is_not(entity)),
            positions::noted(table@),
        ),
    ensures
        resized@ == windows@.filter_map(
            widened(entity, width, height, positions::noted(table@)),
        ),
{
    let ghost frame = positions::noted(table@);
    let ghost f = widened(entity, width, height, frame);
    let mut resized: Vec<(Entity, IVec2)> = Vec::new();
    let mut i: usize = 0;
    while i < windows.len()
        invariant
            i <= windows.len(),
            frame == positions::noted(table@),
            positions::all_measurable(windows@.filter(layout::is_not(entity)), frame),
            f == widened(entity, width, height, frame),
            resized@ == windows@.take(i as int).filter_map(f),
        decreases windows.len() - i,
    {
        proof {
            windows@.lemma_filter_map_take_succ(f, i as int);
        }
        let other = windows[i];
        if other != entity {
            proof {
                windows@.lemma_filter_contains(layout::is_not(entity), i as int);
            }
            if let Some(rect) = read(table, other) {
                if rect.width() < width {
                    resized.push((other, IVec2 { x: width, y: height }));
                }
            }
        }
        i = i + 1;
    }
    assert(windows@.take(i as int) == windows@);
    resized
}

/// Only windows of the same column that were narrower are resized, to the width
/// of the column.
pub proof fn law_only_narrower_windows_are_widened(
    entity: Entity,
    actual: IVec2,
    expected: IVec2,
    strips: Seq<Seq<ColumnModel>>,
    column_width: Option<i32>,
    frame: spec_fn(Entity) -> Option<IRect>,
    k: int,
)
    requires
        0 <= k < fill_column(entity, actual, expected, strips, column_width, frame).len(),
    ensures
        ({
            let (other, size) = fill_column(
                entity,
                actual,
                expected,
                strips,
                column_width,
                frame,
            )[k];
            &&& other != entity
            &&& column_of(strips, entity)->0.holds(other)
            &&& frame(other)->0.spec_width() < size.x
            &&& size == (IVec2 { x: column_width->0, y: actual.y })
        }),
{
    let windows = column_of(strips, entity)->0.windows();
    let f = widened(entity, column_width->0, actual.y, frame);
    let i = search::lemma_filter_map_from(windows, f, k);
}

} // verus!
