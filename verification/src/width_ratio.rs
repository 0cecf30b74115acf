//! How wide a window is, as a part of the display that its strip is on.
use vstd::prelude::*;

use crate::geometry::Entity;
use crate::layout;
use crate::layout::{ColumnModel, LayoutStrip};
use crate::search;

verus! {

/// A strip and the width of its display.
#[derive(Debug)]
pub struct StripWidth {
    pub strip: LayoutStrip,
    pub display_width: i32,
}

/// What a [`StripWidth`] holds.
pub open spec fn widths_view(strips: Seq<StripWidth>) -> Seq<(Seq<ColumnModel>, i32)> {
    strips.map_values(|s: StripWidth| (s.strip@, s.display_width))
}

/// Strips that hold a window, on a display with a width.
pub open spec fn owns(window: Entity) -> spec_fn((Seq<ColumnModel>, i32)) -> bool {
    |s: (Seq<ColumnModel>, i32)| layout::index(s.0, window) is Some && s.1 > 0
}

/// The width of a window over that of the display that its strip is on.
pub open spec fn ratio_of(window: Entity, width: i32, strips: Seq<(Seq<ColumnModel>, i32)>) -> Option<
    (i32, i32),
> {
    match search::first_where(strips, owns(window)) {
        Some(owner) => Some((width, owner.1)),
        None => None,
    }
}

/// The width of a window over the width of the display that its strip is on, as
/// numerator and denominator, if there is such a display.
pub fn width_ratio_for_owner(window: Entity, width: i32, strips: &Vec<StripWidth>) -> (ratio: Option<
    (i32, i32),
>)
    ensures
        ratio == ratio_of(window, width, widths_view(strips@)),
{
    let ghost view = widths_view(strips@);
    let ghost p = owns(window);
    let mut i: usize = 0;
    while i < strips.len()
        invariant
            i <= strips.len(),
            view == widths_view(strips@),
            p == owns(window),
            forall|j: int| 0 <= j < i ==> !p(#[trigger] view[j]),
        decreases strips.len() - i,
    {
        assert(view[i as int] == (strips@[i as int].strip@, strips@[i as int].display_width));
        if strips[i].strip.index_of(window).is_ok() && strips[i].display_width > 0 {
            proof {
                search::lemma_first_index(view, p, i as int);
            }
            return Some((width, strips[i].display_width));
        }
        i = i + 1;
    }
    proof {
        search::lemma_no_first_index(view, p);
    }
    None
}

} // verus!
