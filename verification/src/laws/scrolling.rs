//! Where a strip comes to rest.
use vstd::prelude::*;

use crate::geometry::IRect;
use crate::scroll::viewport;
use crate::scroll::viewport::ColumnMetrics;

verus! {

/// An offset between two ends stays as it is, and one beyond them comes back to the
/// nearer end.
pub open spec fn rests_between(kept: Option<int>, offset: int, a: int, b: int) -> bool {
    let low = if a < b {
        a
    } else {
        b
    };
    let high = if a < b {
        b
    } else {
        a
    };
    &&& low <= offset <= high ==> kept == Some(offset)
    &&& offset < low ==> kept == Some(low)
    &&& offset > high ==> kept == Some(high)
}

/// Where the strip ends: its last column's position and the width of that column's
/// topmost window are known.
pub open spec fn has_end(columns: Seq<ColumnMetrics>) -> bool {
    &&& columns.len() > 0
    &&& columns[columns.len() - 1].position is Some
    &&& columns[columns.len() - 1].top_width is Some
}

/// The right end of a strip.
pub open spec fn right_end(columns: Seq<ColumnMetrics>) -> int {
    columns[columns.len() - 1].position->0 + columns[columns.len() - 1].top_width->0
}

/// No column begins further left than this one.
pub open spec fn is_leftmost(columns: Seq<ColumnMetrics>, i: int) -> bool {
    &&& 0 <= i < columns.len()
    &&& columns[i].position is Some
    &&& forall|j: int|
        0 <= j < columns.len() && (#[trigger] columns[j]).position is Some
            ==> columns[i].position->0 <= columns[j].position->0
}

/// No column is wider than the viewport.
pub open spec fn all_fit(columns: Seq<ColumnMetrics>, viewport: IRect) -> bool {
    forall|j: int|
        0 <= j < columns.len() && (#[trigger] columns[j]).width is Some ==> columns[j].width->0
            <= viewport.max.x - viewport.min.x
}

/// With swipe paging a strip moves between the offset that puts its left end at the left
/// edge of the viewport and the one that puts its right end at the right edge: an offset
/// between them stays as it is, both can be reached, and one beyond them comes back to
/// the nearer one.
pub proof fn law_paging_moves_between_the_ends(
    columns: Seq<ColumnMetrics>,
    viewport: IRect,
    continuous: bool,
    i: int,
    offset: int,
)
    requires
        has_end(columns),
        is_leftmost(columns, i),
    ensures
        rests_between(
            viewport::kept_in_view(offset, columns, viewport, true, continuous),
            offset,
            viewport.min.x - columns[i].position->0,
            viewport.max.x - right_end(columns),
        ),
{
    viewport::lemma_first_position_fits(columns);
    let x = viewport::first_position(columns);
    let j = choose|j: int|
        0 <= j < columns.len() && (#[trigger] columns[j]).position is Some
            && columns[j].position->0 == x;
    assert(x <= columns[i].position->0);
    assert(columns[i].position->0 <= columns[j].position->0);
}

/// With continuous swiping a strip of several columns, none wider than the viewport,
/// moves between the offset that puts its last column at the left edge of the viewport
/// and the one that puts its second column at the right edge.
pub proof fn law_continuous_swiping_keeps_a_window_in_view(
    columns: Seq<ColumnMetrics>,
    viewport: IRect,
    offset: int,
)
    requires
        has_end(columns),
        columns.len() > 1,
        columns[1].position is Some,
        all_fit(columns, viewport),
    ensures
        rests_between(
            viewport::kept_in_view(offset, columns, viewport, false, true),
            offset,
            viewport.min.x - columns[columns.len() - 1].position->0,
            viewport.max.x - columns[1].position->0,
        ),
{
}

/// Else a strip moves between the offset at which its origin is at the left edge of the
/// viewport and the one that puts its right end at the right edge.
pub proof fn law_plain_scrolling_moves_between_the_edges(
    columns: Seq<ColumnMetrics>,
    viewport: IRect,
    continuous: bool,
    offset: int,
)
    requires
        has_end(columns),
        !continuous || columns.len() == 1 || columns[1].position is None || !all_fit(
            columns,
            viewport,
        ),
    ensures
        rests_between(
            viewport::kept_in_view(offset, columns, viewport, false, continuous),
            offset,
            viewport.min.x as int,
            viewport.max.x - right_end(columns),
        ),
{
    if !all_fit(columns, viewport) {
        let j = choose|j: int|
            0 <= j < columns.len() && (#[trigger] columns[j]).width is Some && columns[j].width->0
                > viewport.max.x - viewport.min.x;
        assert(columns[j].width->0 > viewport.spec_width());
    }
}

/// Nothing is said of a strip whose end is not known.
pub proof fn law_strip_without_end_is_left_alone(
    columns: Seq<ColumnMetrics>,
    viewport: IRect,
    paging: bool,
    continuous: bool,
    offset: int,
)
    requires
        !has_end(columns),
    ensures
        viewport::kept_in_view(offset, columns, viewport, paging, continuous) is None,
{
}

} // verus!
