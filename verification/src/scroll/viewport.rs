//! Where a strip may be and where it snaps to, relative to the viewport.
use vstd::prelude::*;

use crate::geometry;
use crate::geometry::IRect;
use crate::number::whole;
use crate::number::Number;
use crate::scroll::paging;
use crate::scroll::paging::{paging_columns, Hop, Release};
use crate::scroll::{PagingGesture, Scrolling};

verus! {

/// How far inside a window's edge the edge of the viewport is caught, in
/// points.
pub const STICKY_EDGE_THRESHOLD_POINTS: i32 = 32;

/// The absolute value of an integer.
pub open spec fn abs(x: int) -> int {
    if x < 0 {
        -x
    } else {
        x
    }
}

// ---------------------------------------------------------------------------
// Sticky edges
// ---------------------------------------------------------------------------
/// The two offsets at which a column's edges are at those of the viewport, its
/// left one first.
pub open spec fn edge_offset(viewport: IRect, column: (i32, i32), right: bool) -> int {
    if right {
        viewport.max.x - (column.0 + column.1)
    } else {
        viewport.min.x - column.0
    }
}

/// The edge of the viewport is just inside the column, so that it is caught.
pub open spec fn catches(viewport: IRect, column: (i32, i32), right: bool, offset: int) -> bool {
    let distance = offset - edge_offset(viewport, column, right);
    if right {
        0 <= distance <= STICKY_EDGE_THRESHOLD_POINTS
    } else {
        -STICKY_EDGE_THRESHOLD_POINTS <= distance <= 0
    }
}

/// `target` is the nearest of the offsets that catch the strip, and among
/// equally near ones that of the first column, its left edge first.
pub open spec fn is_sticky_target(
    viewport: IRect,
    columns: Seq<(i32, i32)>,
    offset: int,
    target: int,
) -> bool {
    exists|k: int, right: bool|
        {
            &&& 0 <= k < columns.len()
            &&& #[trigger] catches(viewport, columns[k], right, offset)
            &&& target == edge_offset(viewport, columns[k], right)
            &&& forall|j: int, other: bool|
                0 <= j < columns.len() && #[trigger] catches(viewport, columns[j], other, offset)
                    ==> abs(offset - target) <= abs(
                    offset - edge_offset(viewport, columns[j], other),
                )
            &&& forall|j: int, other: bool|
                0 <= j < columns.len() && #[trigger] catches(viewport, columns[j], other, offset)
                    && (j < k || j == k && !other && right) ==> abs(offset - target) < abs(
                    offset - edge_offset(viewport, columns[j], other),
                )
        }
}

/// The offsets of all edges fit a machine integer.
pub open spec fn edges_fit(viewport: IRect, columns: Seq<(i32, i32)>) -> bool {
    forall|k: int|
        0 <= k < columns.len() ==> {
            &&& geometry::fits((#[trigger] columns[k]).0 + columns[k].1)
            &&& geometry::fits(edge_offset(viewport, columns[k], false))
            &&& geometry::fits(edge_offset(viewport, columns[k], true))
        }
}

/// The offset at which the strip is caught by a window's edge, if it is.
pub fn sticky_edge_snap_target(
    current_offset: i32,
    viewport: &IRect,
    columns: &Vec<(i32, i32)>,
) -> (target: Option<i32>)
    requires
        edges_fit(*viewport, columns@),
    ensures
        target matches Some(t) ==> is_sticky_target(
            *viewport,
            columns@,
            current_offset as int,
            t as int,
        ),
        target is None <==> forall|k: int, right: bool|
            0 <= k < columns.len() ==> !#[trigger] catches(
                *viewport,
                columns@[k],
                right,
                current_offset as int,
            ),
{
    let ghost view = *viewport;
    let ghost at = current_offset as int;
    let ghost all = columns@;
    let mut best: Option<(i32, i64)> = None;
    let ghost mut best_at: (int, bool) = (0, false);
    let mut i: usize = 0;
    while i < columns.len()
        invariant
            i <= columns.len(),
            view == *viewport,
            at == current_offset,
            all == columns@,
            edges_fit(view, all),
            best is None ==> forall|j: int, other: bool|
                0 <= j < i ==> !#[trigger] catches(view, all[j], other, at),
            best matches Some((t, d)) ==> {
                &&& d == abs(at - t)
                &&& 0 <= best_at.0 < i
                &&& catches(view, all[best_at.0], best_at.1, at)
                &&& t == edge_offset(view, all[best_at.0], best_at.1)
                &&& forall|j: int, other: bool|
                    0 <= j < i && #[trigger] catches(view, all[j], other, at) ==> d <= abs(
                        at - edge_offset(view, all[j], other),
                    )
                &&& forall|j: int, other: bool|
                    0 <= j < i && #[trigger] catches(view, all[j], other, at) && (j < best_at.0 || j
                        == best_at.0 && !other && best_at.1) ==> d < abs(
                        at - edge_offset(view, all[j], other),
                    )
            },
        decreases columns.len() - i,
    {
        let (position, width): (i32, i32) = columns[i];
        assert(all[i as int] == (position, width));
        let left: i32 = viewport.min.x - position;
        let right: i32 = viewport.max.x - (position + width);
        let from_left: i64 = current_offset as i64 - left as i64;
        let from_right: i64 = current_offset as i64 - right as i64;
        if -32 <= from_left && from_left <= 0 {
            assert(catches(view, all[i as int], false, at));
            let distance: i64 = -from_left;
            let closer = match best {
                None => true,
                Some((_, d)) => distance < d,
            };
            if closer {
                best = Some((left, distance));
                proof {
                    best_at = (i as int, false);
                }
            }
        } else {
            assert(!catches(view, all[i as int], false, at));
        }
        if 0 <= from_right && from_right <= 32 {
            assert(catches(view, all[i as int], true, at));
            let closer = match best {
                None => true,
                Some((_, d)) => from_right < d,
            };
            if closer {
                best = Some((right, from_right));
                proof {
                    best_at = (i as int, true);
                }
            }
        } else {
            assert(!catches(view, all[i as int], true, at));
        }
        i = i + 1;
    }
    match best {
        Some((target, _)) => {
            assert(catches(view, all[best_at.0], best_at.1, at));
            Some(target)
        },
        None => None,
    }
}

/// A strip that a window's edge catches moves by no more than the distance at
/// which edges catch.
pub proof fn law_sticky_moves_little(
    viewport: IRect,
    columns: Seq<(i32, i32)>,
    offset: int,
    target: int,
)
    requires
        is_sticky_target(viewport, columns, offset, target),
    ensures
        abs(offset - target) <= STICKY_EDGE_THRESHOLD_POINTS,
{
}

// ---------------------------------------------------------------------------
// Centring
// ---------------------------------------------------------------------------
/// The offset at which a column is in the middle of the viewport.
pub open spec fn center_offset(viewport: IRect, column: (i32, i32)) -> int {
    geometry::quot(viewport.min.x + viewport.max.x, 2) - (column.0 + geometry::quot(
        column.1 as int,
        2,
    ))
}

/// `k` is the first of the columns whose centred offset is nearest to the
/// strip.
pub open spec fn is_nearest_center(
    viewport: IRect,
    columns: Seq<(i32, i32)>,
    offset: int,
    k: int,
) -> bool {
    &&& 0 <= k < columns.len()
    &&& forall|j: int|
        0 <= j < columns.len() ==> abs(offset - center_offset(viewport, columns[k])) <= abs(
            offset - center_offset(viewport, #[trigger] columns[j]),
        )
    &&& forall|j: int|
        0 <= j < k ==> abs(offset - center_offset(viewport, columns[k])) < abs(
            offset - center_offset(viewport, #[trigger] columns[j]),
        )
}

/// `target` is the offset that centres the column which needs the least move for
/// it, or the strip's own where there is no column.
pub open spec fn is_center_target(
    viewport: IRect,
    columns: Seq<(i32, i32)>,
    offset: int,
    target: int,
) -> bool {
    if columns.len() == 0 {
        target == offset
    } else {
        exists|k: int|
            #[trigger] is_nearest_center(viewport, columns, offset, k) && target == center_offset(
                viewport,
                columns[k],
            )
    }
}

/// Every number on the way to the centred offsets fits a machine integer.
pub open spec fn centers_fit(viewport: IRect, columns: Seq<(i32, i32)>, offset: int) -> bool {
    &&& geometry::fits(viewport.min.x + viewport.max.x)
    &&& geometry::fits(viewport.min.y + viewport.max.y)
    &&& forall|k: int|
        0 <= k < columns.len() ==> geometry::fits(
            (#[trigger] columns[k]).0 + geometry::quot(columns[k].1 as int, 2),
        ) && geometry::fits(center_offset(viewport, columns[k])) && geometry::fits(
            offset - center_offset(viewport, columns[k]),
        ) && offset - center_offset(viewport, columns[k]) != i32::MIN
}

/// Where a column is on the strip, if that is known, and how wide its topmost
/// window is.
pub open spec fn centered() -> spec_fn(ColumnMetrics) -> Option<(i32, i32)> {
    |column: ColumnMetrics|
        match column.position {
            Some(position) => Some(
                (
                    position,
                    match column.top_width {
                        Some(width) => width,
                        None => 0,
                    },
                ),
            ),
            None => None,
        }
}

/// The columns that can be centred.
fn center_columns(columns: &Vec<ColumnMetrics>) -> (known: Vec<(i32, i32)>)
    ensures
        known@ == columns@.filter_map(centered()),
{
    let ghost f = centered();
    let mut known: Vec<(i32, i32)> = Vec::new();
    let mut i: usize = 0;
    assert(columns@.take(0).filter_map(f) =~= Seq::empty());
    while i < columns.len()
        invariant
            i <= columns.len(),
            f == centered(),
            known@ == columns@.take(i as int).filter_map(f),
        decreases columns.len() - i,
    {
        proof {
            columns@.lemma_filter_map_take_succ(f, i as int);
        }
        if let Some(position) = columns[i].position {
            let width: i32 = match columns[i].top_width {
                Some(width) => width,
                None => 0,
            };
            known.push((position, width));
        }
        assert(known@ =~= columns@.take(i + 1).filter_map(f));
        i = i + 1;
    }
    assert(columns@.take(i as int) =~= columns@);
    known
}

/// The offset that centres the column which needs the least move for it; the
/// strip's own where there is no column. `columns` are the positions and widths
/// of the columns.
pub fn nearest_center(current_offset: i32, viewport: &IRect, columns: &Vec<(i32, i32)>) -> (target:
    i32)
    requires
        centers_fit(*viewport, columns@, current_offset as int),
    ensures
        is_center_target(*viewport, columns@, current_offset as int, target as int),
{
    if columns.len() == 0 {
        return current_offset;
    }
    let ghost all = columns@;
    let ghost at = current_offset as int;
    let center: i32 = viewport.center().x;
    let mut best: usize = 0;
    let mut target: i32 = center - (columns[0].0 + geometry::halve(columns[0].1));
    let mut i: usize = 1;
    while i < columns.len()
        invariant
            best < i <= columns.len(),
            all == columns@,
            at == current_offset,
            center == geometry::quot(viewport.min.x + viewport.max.x, 2),
            target == center_offset(*viewport, all[best as int]),
            centers_fit(*viewport, all, at),
            forall|j: int|
                0 <= j < i ==> abs(at - target) <= abs(
                    at - center_offset(*viewport, #[trigger] all[j]),
                ),
            forall|j: int|
                0 <= j < best ==> abs(at - target) < abs(
                    at - center_offset(*viewport, #[trigger] all[j]),
                ),
        decreases columns.len() - i,
    {
        assert(all[i as int] == columns@[i as int]);
        let candidate: i32 = center - (columns[i].0 + geometry::halve(columns[i].1));
        let new: i32 = distance(current_offset, candidate);
        assert(all[best as int] == columns@[best as int]);
        let known: i32 = distance(current_offset, target);
        if new < known {
            best = i;
            target = candidate;
        }
        i = i + 1;
    }
    assert(is_nearest_center(*viewport, columns@, at, best as int));
    target
}

/// How far two numbers are apart.
fn distance(a: i32, b: i32) -> (d: i32)
    requires
        geometry::fits(a - b),
        a - b != i32::MIN,
    ensures
        d == abs(a - b),
{
    let d: i32 = a - b;
    if d < 0 {
        -d
    } else {
        d
    }
}

/// `pull` is how far a centred window pulls the strip: the whole way where that is less
/// than a twentieth of the viewport, and not at all while the user swipes.
pub open spec fn is_pull(
    is_user_swiping: bool,
    position: int,
    viewport: IRect,
    columns: Seq<ColumnMetrics>,
    pull: Option<i32>,
) -> bool {
    &&& is_user_swiping ==> pull is None
    &&& !is_user_swiping ==> exists|target: int|
        {
            let distance = position - target;
            &&& #[trigger] is_center_target(
                viewport,
                columns.filter_map(centered()),
                position,
                target,
            )
            &&& pull == if 20 * abs(distance) < viewport.spec_width() {
                Some(distance as i32)
            } else {
                None
            }
        }
}

/// How far a strip that nobody swipes is from the nearest centred offset, where
/// that is close enough to pull it: less than a twentieth of the viewport.
pub fn magnetic_snap_to_center(
    is_user_swiping: bool,
    current_position: i32,
    viewport: &IRect,
    columns: &Vec<ColumnMetrics>,
) -> (pull: Option<i32>)
    requires
        viewport.measurable(),
        centers_fit(*viewport, columns@.filter_map(centered()), current_position as int),
    ensures
        is_pull(is_user_swiping, current_position as int, *viewport, columns@, pull),
{
    if is_user_swiping {
        return None;
    }
    let known = center_columns(columns);
    let target: i32 = nearest_center(current_position, viewport, &known);
    let pulled: i32 = current_position - target;
    let wide: i64 = pulled as i64;
    let size: i64 = if wide < 0 {
        -wide
    } else {
        wide
    };
    assert(is_center_target(*viewport, known@, current_position as int, target as int));
    if 20 * size < viewport.width() as i64 {
        Some(pulled)
    } else {
        None
    }
}

// ---------------------------------------------------------------------------
// Snapping
// ---------------------------------------------------------------------------
/// What a strip that has settled snaps to.
#[derive(Clone, Copy, Debug, PartialEq, Eq, Structural)]
pub enum SnapMode {
    Off,
    /// To a stop of its paging gesture.
    Paging,
    /// To a window's edge, if one catches it.
    Sticky,
    /// To the nearest centred window, if that is close.
    Center,
}

/// How a strip snaps, given what is switched on.
pub open spec fn mode_of(swipe_paging: bool, sticky_scroll: bool, auto_center: bool) -> SnapMode {
    if swipe_paging {
        SnapMode::Paging
    } else if sticky_scroll {
        SnapMode::Sticky
    } else if auto_center {
        SnapMode::Center
    } else {
        SnapMode::Off
    }
}

/// The mode that the settings ask for: paging before edges before centring.
pub fn snap_mode(swipe_paging: bool, sticky_scroll: bool, auto_center: bool) -> (mode: SnapMode)
    ensures
        mode == mode_of(swipe_paging, sticky_scroll, auto_center),
{
    if swipe_paging {
        SnapMode::Paging
    } else if sticky_scroll {
        SnapMode::Sticky
    } else if auto_center {
        SnapMode::Center
    } else {
        SnapMode::Off
    }
}

/// The offset is close enough for a strip to be centred: less than nine
/// twentieths of the viewport away.
pub open spec fn close_to_center(position: int, offset: int, viewport_width: int) -> bool {
    20 * abs(position - offset) < 9 * viewport_width
}

/// The stop of a gesture that a hop goes to. A gesture that has no such stop ends
/// where it started.
pub open spec fn stop_of(gesture: PagingGesture, hop: Hop) -> Number {
    match (hop, gesture.previous_stop, gesture.next_stop) {
        (Hop::Previous, Some(stop), _) => stop,
        (Hop::Next, _, Some(stop)) => stop,
        _ => gesture.start_stop,
    }
}

/// What a strip that has settled may snap to: its columns and the viewport, and
/// how it was let go.
#[derive(Debug)]
pub struct SnapScene {
    pub viewport: IRect,
    pub columns: Vec<ColumnMetrics>,
    pub release: Release,
}

/// `target` is the offset that the mode finds for a strip, if it finds one: with
/// paging the stop where the gesture ends, without the digits behind its point.
pub open spec fn finds(
    mode: SnapMode,
    gesture: Option<PagingGesture>,
    position: int,
    scene: SnapScene,
    target: Option<i32>,
) -> bool {
    match mode {
        SnapMode::Off => target is None,
        SnapMode::Paging => target == match gesture {
            Some(gesture) => Some(stop_of(gesture, scene.release.hop()).spec_truncated() as i32),
            None => None,
        },
        SnapMode::Sticky => {
            let known = scene.columns@.filter_map(paging::measured());
            match target {
                Some(target) => is_sticky_target(scene.viewport, known, position, target as int),
                None => forall|k: int, right: bool|
                    0 <= k < known.len() ==> !#[trigger] catches(
                        scene.viewport,
                        known[k],
                        right,
                        position,
                    ),
            }
        },
        SnapMode::Center => target is Some && is_center_target(
            scene.viewport,
            scene.columns@.filter_map(centered()),
            position,
            target->0 as int,
        ),
    }
}

/// The strip after it had its chance to snap to an offset, if there is one. A mode
/// that centres lets go where the offset is too far away.
pub open spec fn snapped(
    mode: SnapMode,
    scroll: Scrolling,
    position: int,
    viewport_width: int,
    target: Option<i32>,
) -> Scrolling {
    match target {
        None => Scrolling { snap_pending: false, ..scroll },
        Some(offset) => if mode != SnapMode::Center || close_to_center(
            position,
            offset as int,
            viewport_width,
        ) {
            Scrolling {
                snap_pending: false,
                velocity: Number { bits: 0 },
                target_position: Some(Number::spec_from_whole(offset)),
                ..scroll
            }
        } else {
            Scrolling { snap_pending: false, ..scroll }
        },
    }
}

/// Every number on the way to the offset that a mode finds fits a machine integer.
pub open spec fn snap_fits(mode: SnapMode, position: int, scene: SnapScene) -> bool {
    &&& scene.viewport.measurable()
    &&& mode == SnapMode::Sticky ==> edges_fit(
        scene.viewport,
        scene.columns@.filter_map(paging::measured()),
    )
    &&& mode == SnapMode::Center ==> centers_fit(
        scene.viewport,
        scene.columns@.filter_map(centered()),
        position,
    )
}

/// The offset that a mode finds for a strip, if it finds one.
fn find_snap(mode: SnapMode, gesture: Option<PagingGesture>, position: i32, scene: &SnapScene) -> (
    target: Option<i32>)
    requires
        snap_fits(mode, position as int, *scene),
    ensures
        finds(mode, gesture, position as int, *scene, target),
{
    match mode {
        SnapMode::Off => None,
        SnapMode::Paging => match gesture {
            Some(gesture) => {
                let stop = match (
                    paging::snap_target(&scene.release),
                    gesture.previous_stop,
                    gesture.next_stop,
                ) {
                    (Hop::Previous, Some(stop), _) => stop,
                    (Hop::Next, _, Some(stop)) => stop,
                    _ => gesture.start_stop,
                };
                Some(stop.truncated())
            },
            None => None,
        },
        SnapMode::Sticky => {
            let known = paging_columns(&scene.columns);
            sticky_edge_snap_target(position, &scene.viewport, &known)
        },
        SnapMode::Center => {
            let known = center_columns(&scene.columns);
            Some(nearest_center(position, &scene.viewport, &known))
        },
    }
}

/// `after` is the strip once it may have snapped: with nothing to snap to it stays, one
/// that is not at rest waits, and one that is goes where the mode says.
pub open spec fn settles(
    mode: SnapMode,
    before: Scrolling,
    position: int,
    scene: SnapScene,
    after: Scrolling,
) -> bool {
    &&& mode == SnapMode::Off ==> after == (Scrolling { snap_pending: false, ..before })
    &&& mode != SnapMode::Off && !paging::at_rest(before) ==> after == before
    &&& mode != SnapMode::Off && paging::at_rest(before) ==> exists|target: Option<i32>|
        #[trigger] finds(mode, before.paging_gesture, position, scene, target) && after == snapped(
            mode,
            before,
            position,
            scene.viewport.spec_width(),
            target,
        )
}

/// Sends a strip that has settled to where it snaps. Without a mode nothing waits
/// to snap any more; a strip that has not settled is left alone.
pub fn apply_snap_force(mode: SnapMode, scroll: &mut Scrolling, position: i32, scene: &SnapScene)
    requires
        snap_fits(mode, position as int, *scene),
    ensures
        settles(mode, *old(scroll), position as int, *scene, *final(scroll)),
{
    if mode == SnapMode::Off {
        scroll.snap_pending = false;
        return ;
    }
    if !paging::ready_to_snap(scroll) {
        return ;
    }
    let target = find_snap(mode, scroll.paging_gesture, position, scene);
    scroll.snap_pending = false;
    if let Some(offset) = target {
        let dist: i64 = position as i64 - offset as i64;
        let size: i64 = if dist < 0 {
            -dist
        } else {
            dist
        };
        if mode != SnapMode::Center || 20 * size < 9 * scene.viewport.width() as i64 {
            scroll.velocity = Number::zero();
            scroll.target_position = Some(Number::from_whole(offset));
        }
    }
}

// ---------------------------------------------------------------------------
// Keeping the strip in view
// ---------------------------------------------------------------------------
/// What is known of one column: where its topmost window is on the strip, how
/// wide that window is, and how wide the column is.
#[derive(Clone, Copy, Debug, PartialEq, Eq, Structural)]
pub struct ColumnMetrics {
    pub position: Option<i32>,
    pub top_width: Option<i32>,
    pub width: Option<i32>,
}

/// The right end of the strip: that of its last column.
pub open spec fn strip_width(columns: Seq<ColumnMetrics>) -> Option<int> {
    if columns.len() > 0 && columns.last().position is Some && columns.last().top_width is Some {
        Some(columns.last().position->0 + columns.last().top_width->0)
    } else {
        None
    }
}

/// `x` is the least known position of the columns.
pub open spec fn is_first_position(columns: Seq<ColumnMetrics>, x: int) -> bool {
    &&& exists|i: int|
        0 <= i < columns.len() && (#[trigger] columns[i]).position is Some
            && columns[i].position->0 == x
    &&& forall|i: int|
        0 <= i < columns.len() ==> ((#[trigger] columns[i]).position matches Some(p) ==> x <= p)
}

/// Some column is wider than the viewport.
pub open spec fn some_oversized(columns: Seq<ColumnMetrics>, viewport: IRect) -> bool {
    exists|i: int|
        0 <= i < columns.len() && (#[trigger] columns[i]).width is Some && columns[i].width->0
            > viewport.spec_width()
}

/// The offsets between which the strip stays: with paging those of its two
/// ends; with continuous swiping those at which the last window reaches the
/// left edge and the second one the right edge, unless some column is wider
/// than the viewport; otherwise those at which the strip is aligned with one of
/// the viewport's edges.
pub open spec fn viewport_edges(
    columns: Seq<ColumnMetrics>,
    viewport: IRect,
    swipe_paging: bool,
    continuous: bool,
    first_position: int,
) -> (int, int) {
    let total = strip_width(columns)->0;
    if swipe_paging {
        (viewport.min.x - first_position, viewport.max.x - total)
    } else if continuous && !some_oversized(columns, viewport) && columns.len() > 1
        && columns[1].position is Some {
        (
            viewport.min.x - columns.last().position->0,
            viewport.max.x - columns[1].position->0,
        )
    } else {
        (viewport.min.x as int, viewport.max.x - total)
    }
}

/// A number moved between two others, whichever of them is greater.
pub open spec fn between(x: int, a: int, b: int) -> int {
    if a <= b {
        paging::clamped(x, a, b)
    } else {
        paging::clamped(x, b, a)
    }
}

/// Every number on the way to the edges fits a machine integer.
pub open spec fn view_fits(columns: Seq<ColumnMetrics>, viewport: IRect) -> bool {
    &&& viewport.measurable()
    &&& strip_width(columns) matches Some(total) ==> geometry::fits(total) && geometry::fits(
        viewport.max.x - total,
    )
    &&& forall|i: int|
        0 <= i < columns.len() ==> ((#[trigger] columns[i]).position matches Some(p)
            ==> geometry::fits(viewport.min.x - p) && geometry::fits(viewport.max.x - p))
}

/// The least known position of the columns.
pub open spec fn first_position(columns: Seq<ColumnMetrics>) -> int {
    choose|x: int| is_first_position(columns, x)
}

/// A strip's offset, kept where its windows are in view. Nothing where the end of
/// the strip is not known.
pub open spec fn kept_in_view(
    offset: int,
    columns: Seq<ColumnMetrics>,
    viewport: IRect,
    swipe_paging: bool,
    continuous: bool,
) -> Option<int> {
    if strip_width(columns) is None {
        None
    } else {
        let edges = viewport_edges(
            columns,
            viewport,
            swipe_paging,
            continuous,
            first_position(columns),
        );
        Some(between(offset, edges.0, edges.1))
    }
}

/// The strip's offset, kept where its windows are in view. Nothing where the
/// end of the strip is not known.
pub fn clamp_viewport_offset(
    current_offset: i32,
    columns: &Vec<ColumnMetrics>,
    viewport: &IRect,
    swipe_paging: bool,
    continuous_swipe: bool,
) -> (clamped: Option<i32>)
    requires
        view_fits(columns@, *viewport),
    ensures
        match kept_in_view(
            current_offset as int,
            columns@,
            *viewport,
            swipe_paging,
            continuous_swipe,
        ) {
            Some(kept) => clamped is Some && clamped->0 == kept,
            None => clamped is None,
        },
{
    if columns.len() == 0 {
        return None;
    }
    let last: ColumnMetrics = columns[columns.len() - 1];
    let (left_snap, top_width): (i32, i32) = match (last.position, last.top_width) {
        (Some(position), Some(width)) => (position, width),
        _ => return None,
    };
    let total: i32 = left_snap + top_width;
    let mut first: i32 = left_snap;
    let mut oversized = false;
    let viewport_width: i32 = viewport.width();
    let mut i: usize = 0;
    while i < columns.len()
        invariant
            i <= columns.len(),
            viewport_width == viewport.spec_width(),
            exists|j: int|
                0 <= j < columns.len() && (#[trigger] columns@[j]).position is Some
                    && columns@[j].position->0 == first,
            forall|j: int|
                0 <= j < i ==> ((#[trigger] columns@[j]).position matches Some(p) ==> first <= p),
            oversized <==> exists|j: int|
                0 <= j < i && (#[trigger] columns@[j]).width is Some && columns@[j].width->0
                    > viewport.spec_width(),
        decreases columns.len() - i,
    {
        if let Some(position) = columns[i].position {
            if position < first {
                first = position;
            }
        }
        if let Some(width) = columns[i].width {
            if width > viewport_width {
                oversized = true;
            }
        }
        i = i + 1;
    }
    proof {
        assert(is_first_position(columns@, first as int));
        let chosen = first_position(columns@);
        assert(is_first_position(columns@, chosen));
        let at = choose|j: int|
            0 <= j < columns.len() && (#[trigger] columns@[j]).position is Some
                && columns@[j].position->0 == first;
        let chosen_at = choose|j: int|
            0 <= j < columns.len() && (#[trigger] columns@[j]).position is Some
                && columns@[j].position->0 == chosen;
        assert(chosen <= columns@[at].position->0);
        assert(first <= columns@[chosen_at].position->0);
    }
    let second = if columns.len() > 1 {
        columns[1].position
    } else {
        None
    };
    let (a, b): (i32, i32) = if swipe_paging {
        (viewport.min.x - first, viewport.max.x - total)
    } else {
        match second {
            Some(right_snap) => if continuous_swipe && !oversized {
                (viewport.min.x - left_snap, viewport.max.x - right_snap)
            } else {
                (viewport.min.x, viewport.max.x - total)
            },
            None => (viewport.min.x, viewport.max.x - total),
        }
    };
    Some(
        if a <= b {
            paging::clamp(current_offset, a, b)
        } else {
            paging::clamp(current_offset, b, a)
        },
    )
}

/// What a strip's exact offset becomes once the whole one has been kept in view:
/// it stays, with whatever is behind the point, unless the strip was moved.
pub open spec fn reconciled(integrated: Number, effective: int, kept: int) -> Number {
    if effective == kept {
        integrated
    } else {
        Number::spec_from_whole(kept as i32)
    }
}

/// What a strip's exact offset becomes once the whole one has been kept in view.
pub fn reconcile_integrated_position(
    integrated_position: Number,
    effective_position: i32,
    clamped_position: i32,
) -> (position: Number)
    ensures
        position == reconciled(
            integrated_position,
            effective_position as int,
            clamped_position as int,
        ),
{
    if effective_position == clamped_position {
        integrated_position
    } else {
        Number::from_whole(clamped_position)
    }
}

/// A number that is kept in view by its whole part.
pub open spec fn held(
    number: Number,
    columns: Seq<ColumnMetrics>,
    viewport: IRect,
    swipe_paging: bool,
    continuous: bool,
) -> Number {
    let effective = number.spec_truncated();
    match kept_in_view(effective, columns, viewport, swipe_paging, continuous) {
        Some(kept) => reconciled(number, effective, kept),
        None => number,
    }
}

/// The strip once it has been kept in view: its offset and where it is to go are.
/// A strip without a known end stands.
pub open spec fn held_in_view(
    scroll: Scrolling,
    columns: Seq<ColumnMetrics>,
    viewport: IRect,
    swipe_paging: bool,
    continuous: bool,
) -> Scrolling {
    if strip_width(columns) is Some {
        Scrolling {
            position: held(scroll.position, columns, viewport, swipe_paging, continuous),
            target_position: match scroll.target_position {
                Some(target) => Some(held(target, columns, viewport, swipe_paging, continuous)),
                None => None,
            },
            ..scroll
        }
    } else {
        Scrolling { velocity: Number { bits: 0 }, target_position: None, ..scroll }
    }
}

/// Keeps a moving strip in view: `position` is where it is shown.
pub fn apply_scrolling_constraints(
    position: &mut i32,
    scroll: &mut Scrolling,
    columns: &Vec<ColumnMetrics>,
    viewport: &IRect,
    swipe_paging: bool,
    continuous_swipe: bool,
)
    requires
        view_fits(columns@, *viewport),
    ensures
        *final(scroll) == held_in_view(
            *old(scroll),
            columns@,
            *viewport,
            swipe_paging,
            continuous_swipe,
        ),
        *final(position) == match kept_in_view(
            old(scroll).position.spec_truncated(),
            columns@,
            *viewport,
            swipe_paging,
            continuous_swipe,
        ) {
            Some(kept) => kept,
            None => *old(position) as int,
        },
{
    let effective: i32 = scroll.position.truncated();
    match clamp_viewport_offset(effective, columns, viewport, swipe_paging, continuous_swipe) {
        Some(clamped) => {
            *position = clamped;
            scroll.position = reconcile_integrated_position(scroll.position, effective, clamped);
            if let Some(target) = scroll.target_position {
                let whole: i32 = target.truncated();
                let kept = clamp_viewport_offset(
                    whole,
                    columns,
                    viewport,
                    swipe_paging,
                    continuous_swipe,
                );
                if let Some(kept) = kept {
                    scroll.target_position = Some(
                        reconcile_integrated_position(target, whole, kept),
                    );
                }
            }
        },
        None => {
            scroll.velocity = Number::zero();
            scroll.target_position = None;
        },
    }
}

/// A strip that was kept in view is in view: keeping it there again changes
/// nothing.
pub proof fn law_kept_strip_stays(
    scroll: Scrolling,
    columns: Seq<ColumnMetrics>,
    viewport: IRect,
    swipe_paging: bool,
    continuous: bool,
)
    requires
        view_fits(columns, viewport),
    ensures
        ({
            let once = held_in_view(scroll, columns, viewport, swipe_paging, continuous);
            held_in_view(once, columns, viewport, swipe_paging, continuous) == once
        }),
{
    if strip_width(columns) is Some {
        lemma_held_stays(scroll.position, columns, viewport, swipe_paging, continuous);
        if let Some(target) = scroll.target_position {
            lemma_held_stays(target, columns, viewport, swipe_paging, continuous);
        }
    }
}

proof fn lemma_held_stays(
    number: Number,
    columns: Seq<ColumnMetrics>,
    viewport: IRect,
    swipe_paging: bool,
    continuous: bool,
)
    requires
        view_fits(columns, viewport),
        strip_width(columns) is Some,
    ensures
        ({
            let once = held(number, columns, viewport, swipe_paging, continuous);
            held(once, columns, viewport, swipe_paging, continuous) == once
        }),
{
    let effective = number.spec_truncated();
    let kept = kept_in_view(effective, columns, viewport, swipe_paging, continuous)->0;
    if effective != kept {
        lemma_first_position_fits(columns);
        whole::law_whole_number_comes_back(kept as i32);
    }
}

/// Where the end of a strip is known, some column comes first.
pub proof fn lemma_first_position_fits(columns: Seq<ColumnMetrics>)
    requires
        strip_width(columns) is Some,
    ensures
        is_first_position(columns, first_position(columns)),
{
    lemma_some_first_position(columns, columns.len() as int);
}

proof fn lemma_some_first_position(columns: Seq<ColumnMetrics>, n: int) -> (x: int)
    requires
        0 <= n <= columns.len(),
        strip_width(columns) is Some,
    ensures
        exists|i: int|
            0 <= i < columns.len() && (#[trigger] columns[i]).position is Some
                && columns[i].position->0 == x,
        forall|i: int|
            0 <= i < n ==> ((#[trigger] columns[i]).position matches Some(p) ==> x <= p),
        n == columns.len() ==> is_first_position(columns, x),
    decreases n,
{
    if n == 0 {
        let last = columns.len() - 1;
        assert(columns[last].position is Some);
        columns[last].position->0 as int
    } else {
        let x = lemma_some_first_position(columns, n - 1);
        match columns[n - 1].position {
            Some(p) => if p < x {
                assert(columns[n - 1].position is Some);
                p as int
            } else {
                x
            },
            None => x,
        }
    }
}

} // verus!
