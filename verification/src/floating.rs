//! Where a window that is not laid out may be: within its display.
use vstd::prelude::*;

use crate::geometry::{fits, IRect, IVec2};
use crate::search;

verus! {

/// The number between two bounds that is nearest to another.
pub open spec fn clamped(x: int, low: int, high: int) -> int {
    if x < low {
        low
    } else if x > high {
        high
    } else {
        x
    }
}

/// Where something as long as `size` starts when it is moved between two bounds
/// by as little as possible. What does not fit starts at the lower bound.
pub open spec fn start_within(start: int, size: int, low: int, high: int) -> int {
    clamped(
        start,
        low,
        if high - size > low {
            high - size
        } else {
            low
        },
    )
}

/// The rectangle has these two corners, whichever of them comes first.
pub open spec fn has_corners(rect: IRect, x0: int, y0: int, x1: int, y1: int) -> bool {
    &&& rect.min.x == if x0 <= x1 {
        x0
    } else {
        x1
    }
    &&& rect.max.x == if x0 <= x1 {
        x1
    } else {
        x0
    }
    &&& rect.min.y == if y0 <= y1 {
        y0
    } else {
        y1
    }
    &&& rect.max.y == if y0 <= y1 {
        y1
    } else {
        y0
    }
}

fn fitted_start(start: i32, size: i32, low: i32, high: i32) -> (at: i32)
    requires
        fits(high - size),
    ensures
        at == start_within(start as int, size as int, low as int, high as int),
{
    let room: i32 = high - size;
    let last: i32 = if room > low {
        room
    } else {
        low
    };
    if start < low {
        low
    } else if start > last {
        last
    } else {
        start
    }
}

/// A frame of the given size, moved into the bounds by as little as possible.
pub fn clamp_origin_to_bounds(origin: IRect, size: IVec2, bounds: IRect) -> (frame: IRect)
    requires
        fits(bounds.max.x - size.x),
        fits(bounds.max.y - size.y),
        fits(
            start_within(
                origin.min.x as int,
                size.x as int,
                bounds.min.x as int,
                bounds.max.x as int,
            ) + size.x,
        ),
        fits(
            start_within(
                origin.min.y as int,
                size.y as int,
                bounds.min.y as int,
                bounds.max.y as int,
            ) + size.y,
        ),
    ensures
        ({
            let x = start_within(
                origin.min.x as int,
                size.x as int,
                bounds.min.x as int,
                bounds.max.x as int,
            );
            let y = start_within(
                origin.min.y as int,
                size.y as int,
                bounds.min.y as int,
                bounds.max.y as int,
            );
            has_corners(frame, x, y, x + size.x, y + size.y)
        }),
{
    let min = IVec2 {
        x: fitted_start(origin.min.x, size.x, bounds.min.x, bounds.max.x),
        y: fitted_start(origin.min.y, size.y, bounds.min.y, bounds.max.y),
    };
    IRect::from_corners(min, min.plus(size))
}

/// What fits between the bounds is between them afterwards, and what was there
/// already does not move.
pub proof fn law_clamped_frame_is_within(at: int, size: int, low: int, high: int)
    requires
        0 <= size <= high - low,
    ensures
        low <= start_within(at, size, low, high),
        start_within(at, size, low, high) + size <= high,
        low <= at && at + size <= high ==> start_within(at, size, low, high) == at,
{
}

/// One rectangle is within another.
pub open spec fn is_within(rect: (int, int, int, int), bounds: IRect) -> bool {
    let (left, top, right, bottom) = rect;
    left >= bounds.min.x && right <= bounds.max.x && top >= bounds.min.y && bottom <= bounds.max.y
}

/// The frame moved by an offset: its left, top, right and bottom.
pub open spec fn moved(frame: IRect, by: (int, int)) -> (int, int, int, int) {
    let (left, right) = if frame.min.x <= frame.max.x {
        (frame.min.x, frame.max.x)
    } else {
        (frame.max.x, frame.min.x)
    };
    let (top, bottom) = if frame.min.y <= frame.max.y {
        (frame.min.y, frame.max.y)
    } else {
        (frame.max.y, frame.min.y)
    };
    (left + by.0, top + by.1, right + by.0, bottom + by.1)
}

/// The offsets that are tried: to the corners first, then to the sides.
pub open spec fn offsets(offset: int) -> Seq<(int, int)> {
    seq![
        (offset, offset),
        (offset, -offset),
        (-offset, offset),
        (-offset, -offset),
        (offset, 0),
        (-offset, 0),
        (0, offset),
        (0, -offset),
    ]
}

/// The frame moved by an offset is within the bounds.
pub open spec fn stays_within(frame: IRect, bounds: IRect) -> spec_fn((int, int)) -> bool {
    |by: (int, int)| is_within(moved(frame, by), bounds)
}

/// The frame is at these coordinates.
pub open spec fn is_at(frame: IRect, at: (int, int, int, int)) -> bool {
    (frame.min.x as int, frame.min.y as int, frame.max.x as int, frame.max.y as int) == at
}

/// The frame moved by an offset, if it is then within the bounds.
fn try_offset(frame: IRect, bounds: IRect, dx: i64, dy: i64) -> (result: Option<IRect>)
    requires
        -0x8000_0000 <= dx <= 0x8000_0000,
        -0x8000_0000 <= dy <= 0x8000_0000,
    ensures
        result is Some == is_within(moved(frame, (dx as int, dy as int)), bounds),
        result is Some ==> is_at(result->0, moved(frame, (dx as int, dy as int))),
{
    let frame = IRect::from_corners(frame.min, frame.max);
    let left: i64 = frame.min.x as i64 + dx;
    let top: i64 = frame.min.y as i64 + dy;
    let right: i64 = frame.max.x as i64 + dx;
    let bottom: i64 = frame.max.y as i64 + dy;
    if left >= bounds.min.x as i64 && right <= bounds.max.x as i64 && top >= bounds.min.y as i64
        && bottom <= bounds.max.y as i64 {
        Some(
            IRect {
                min: IVec2 { x: left as i32, y: top as i32 },
                max: IVec2 { x: right as i32, y: bottom as i32 },
            },
        )
    } else {
        None
    }
}

/// The frame was moved by the first offset that keeps it within the bounds, or not at
/// all where none does.
pub open spec fn is_aside(frame: IRect, bounds: IRect, offset: int, aside: IRect) -> bool {
    match search::first_where(offsets(offset), stays_within(frame, bounds)) {
        Some(by) => is_at(aside, moved(frame, by)),
        None => aside == frame,
    }
}

/// The frame moved aside by `offset`, in the first direction in which it stays
/// within the bounds; where it is if there is none.
pub fn offset_frame_within_bounds(frame: IRect, bounds: IRect, offset: i32) -> (aside: IRect)
    ensures
        is_aside(frame, bounds, offset as int, aside),
{
    let d: i64 = offset as i64;
    let back: i64 = -d;
    let candidates: Vec<(i64, i64)> = vec![
        (d, d),
        (d, back),
        (back, d),
        (back, back),
        (d, 0),
        (back, 0),
        (0, d),
        (0, back),
    ];
    let ghost all = offsets(offset as int);
    let ghost p = stays_within(frame, bounds);
    let mut i: usize = 0;
    while i < candidates.len()
        invariant
            i <= candidates.len(),
            candidates.len() == all.len(),
            p == stays_within(frame, bounds),
            all == offsets(offset as int),
            forall|j: int|
                0 <= j < all.len() ==> (candidates@[j].0 as int, candidates@[j].1 as int)
                    == #[trigger] all[j] && -0x8000_0000 <= candidates@[j].0 <= 0x8000_0000
                    && -0x8000_0000 <= candidates@[j].1 <= 0x8000_0000,
            forall|j: int| 0 <= j < i ==> !p(#[trigger] all[j]),
        decreases candidates.len() - i,
    {
        let (dx, dy) = candidates[i];
        if let Some(found) = try_offset(frame, bounds, dx, dy) {
            proof {
                search::lemma_first_index(all, p, i as int);
            }
            return found;
        }
        i = i + 1;
    }
    proof {
        search::lemma_no_first_index(all, p);
    }
    frame
}

/// A window that is moved aside stays within the bounds and keeps its size; one
/// that cannot be moved stays where it is.
pub proof fn law_moved_aside_stays_within(frame: IRect, bounds: IRect, offset: int, aside: IRect)
    requires
        frame.proper(),
        is_aside(frame, bounds, offset, aside),
    ensures
        aside == frame || is_within(
            (aside.min.x as int, aside.min.y as int, aside.max.x as int, aside.max.y as int),
            bounds,
        ),
        aside.spec_width() == frame.spec_width(),
        aside.spec_height() == frame.spec_height(),
{
    let p = stays_within(frame, bounds);
    if let Some(by) = search::first_where(offsets(offset), p) {
        search::lemma_first_index_meaning(offsets(offset), p);
        assert(p(by));
    }
}

} // verus!
