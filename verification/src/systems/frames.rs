//! Windows that were moved or resized by the user or by their application.
use vstd::prelude::*;

use crate::events::Event;
use crate::geometry::{fits, Entity, IRect, IVec2};
use crate::layout;
use crate::layout::{ColumnModel, LayoutStrip};
use crate::search;
use crate::windowset::WinID;

verus! {

/// A window and where it is meant to be.
#[derive(Clone, Copy, Debug, PartialEq, Eq, Structural)]
pub struct FrameEntry {
    pub entity: Entity,
    pub id: WinID,
    pub position: IVec2,
    pub bounds: IVec2,
    /// Its height was changed by us, for the sake of its neighbour.
    pub stack_adjusted: bool,
}

/// Windows with this number.
pub open spec fn has_id(id: WinID) -> spec_fn(FrameEntry) -> bool {
    |w: FrameEntry| w.id == id
}

/// The window that this handle stands for.
pub open spec fn is_window(entity: Entity) -> spec_fn(FrameEntry) -> bool {
    |w: FrameEntry| w.entity == entity
}

/// What follows when a window was moved or resized.
#[derive(Clone, Copy, Debug, PartialEq, Eq, Structural)]
pub struct FrameUpdate {
    /// The window whose mark that it was resized by us is used up.
    pub settled: Option<Entity>,
    /// The window that gets that mark.
    pub adjusted: Option<Entity>,
    /// The window around which the windows are laid out again.
    pub reshuffle: Option<Entity>,
}

/// The window that an event says was moved or resized.
pub open spec fn moved_window(event: Event) -> Option<WinID> {
    match event {
        Event::WindowMoved { window_id } => Some(window_id),
        Event::WindowResized { window_id } => Some(window_id),
        _ => None,
    }
}

/// The window as it is meant to be after the user has changed it: a resized
/// window has the new size, and where its corner moved, the new place.
pub open spec fn follows(window: FrameEntry, frame: IRect, resized: bool) -> FrameEntry {
    FrameEntry {
        position: if !resized || old_corner(window) != (frame.min.x as int, frame.min.y as int) {
            frame.min
        } else {
            window.position
        },
        bounds: if resized {
            IVec2 { x: frame.spec_width() as i32, y: frame.spec_height() as i32 }
        } else {
            window.bounds
        },
        ..window
    }
}

/// The upper left corner of where a window is meant to be.
pub open spec fn old_corner(window: FrameEntry) -> (int, int) {
    (
        if window.bounds.x < 0 {
            window.position.x + window.bounds.x
        } else {
            window.position.x as int
        },
        if window.bounds.y < 0 {
            window.position.y + window.bounds.y
        } else {
            window.position.y as int
        },
    )
}

/// The lower edge of where a window is meant to be.
pub open spec fn old_bottom(window: FrameEntry) -> int {
    if window.bounds.y < 0 {
        window.position.y as int
    } else {
        window.position.y + window.bounds.y
    }
}

/// The user drags the upper edge of a window: its top moves while its bottom
/// stays, but for two points.
pub open spec fn drags_top_edge(window: FrameEntry, frame: IRect) -> bool {
    &&& old_corner(window).1 != frame.min.y
    &&& -2 <= old_bottom(window) - frame.max.y <= 2
}

/// A window whose lower neighbour now starts at `top`: it ends there, if that
/// leaves it any height.
pub open spec fn ends_at(window: FrameEntry, top: i32) -> FrameEntry {
    if top - window.position.y > 0 {
        FrameEntry {
            bounds: IVec2 { x: window.bounds.x, y: (top - window.position.y) as i32 },
            ..window
        }
    } else {
        window
    }
}

/// The index of the window that is followed to its new frame, if there is one:
/// the user does not swipe, the window is known and tells its frame, the change
/// was not our own, and it is on the strip that is shown.
pub open spec fn followed(
    event: Event,
    swiping: bool,
    windows: Seq<FrameEntry>,
    frame: Option<IRect>,
    columns: Seq<ColumnModel>,
) -> Option<int> {
    let found = if moved_window(event) is Some {
        search::first_index(windows, has_id(moved_window(event)->0))
    } else {
        None
    };
    if !swiping && found is Some && frame is Some && !windows[found->0].stack_adjusted
        && layout::index(columns, windows[found->0].entity) is Some {
        found
    } else {
        None
    }
}

/// The window above the one that is dragged by its upper edge.
pub open spec fn pushed(window: FrameEntry, frame: IRect, columns: Seq<ColumnModel>) -> Option<
    Entity,
> {
    if drags_top_edge(window, frame) {
        layout::window_above(columns, window.entity)
    } else {
        None
    }
}

/// The windows after one was moved or resized.
pub open spec fn updated(
    event: Event,
    swiping: bool,
    windows: Seq<FrameEntry>,
    frame: Option<IRect>,
    columns: Seq<ColumnModel>,
    initializing: bool,
) -> Seq<FrameEntry> {
    match followed(event, swiping, windows, frame, columns) {
        None => windows,
        Some(i) => {
            let resized = event is WindowResized;
            let moved = windows.update(i, follows(windows[i], frame->0, resized));
            let above = if resized && !initializing {
                pushed(windows[i], frame->0, columns)
            } else {
                None
            };
            let k = if above is Some {
                search::first_index(moved, is_window(above->0))
            } else {
                None
            };
            match k {
                Some(k) => moved.update(k, ends_at(moved[k], frame->0.min.y)),
                None => moved,
            }
        },
    }
}

/// What follows when a window was moved or resized.
pub open spec fn follow_up(
    event: Event,
    swiping: bool,
    windows: Seq<FrameEntry>,
    frame: Option<IRect>,
    columns: Seq<ColumnModel>,
    focused: Option<Entity>,
    initializing: bool,
) -> FrameUpdate {
    let found = if moved_window(event) is Some {
        search::first_index(windows, has_id(moved_window(event)->0))
    } else {
        None
    };
    let target = followed(event, swiping, windows, frame, columns);
    let resizes = target is Some && event is WindowResized && !initializing;
    FrameUpdate {
        settled: if !swiping && found is Some && frame is Some && windows[found->0].stack_adjusted {
            Some(windows[found->0].entity)
        } else {
            None
        },
        adjusted: if resizes {
            pushed(windows[target->0], frame->0, columns)
        } else {
            None
        },
        reshuffle: if resizes {
            focused
        } else {
            None
        },
    }
}

/// The windows are where the arithmetic fits.
pub open spec fn frames_fit(windows: Seq<FrameEntry>, frame: Option<IRect>) -> bool {
    &&& forall|i: int|
        0 <= i < windows.len() ==> fits((#[trigger] windows[i]).position.x + windows[i].bounds.x)
            && fits(windows[i].position.y + windows[i].bounds.y)
    &&& frame is Some ==> frame->0.measurable() && forall|i: int|
        0 <= i < windows.len() ==> fits(frame->0.min.y - (#[trigger] windows[i]).position.y)
}

fn find_id(windows: &Vec<FrameEntry>, id: WinID) -> (found: Option<usize>)
    ensures
        found is Some == search::first_index(windows@, has_id(id)) is Some,
        found is Some ==> found->0 < windows.len() && search::first_index(windows@, has_id(id))
            == Some(found->0 as int),
{
    let ghost p = has_id(id);
    let mut i: usize = 0;
    while i < windows.len()
        invariant
            i <= windows.len(),
            p == has_id(id),
            forall|j: int| 0 <= j < i ==> !p(#[trigger] windows@[j]),
        decreases windows.len() - i,
    {
        if windows[i].id == id {
            proof {
                search::lemma_first_index(windows@, p, i as int);
            }
            return Some(i);
        }
        i = i + 1;
    }
    proof {
        search::lemma_no_first_index(windows@, p);
    }
    None
}

fn find_window(windows: &Vec<FrameEntry>, entity: Entity) -> (found: Option<usize>)
    ensures
        found is Some == search::first_index(windows@, is_window(entity)) is Some,
        found is Some ==> found->0 < windows.len() && search::first_index(
            windows@,
            is_window(entity),
        ) == Some(found->0 as int),
{
    let ghost p = is_window(entity);
    let mut i: usize = 0;
    while i < windows.len()
        invariant
            i <= windows.len(),
            p == is_window(entity),
            forall|j: int| 0 <= j < i ==> !p(#[trigger] windows@[j]),
        decreases windows.len() - i,
    {
        if windows[i].entity == entity {
            proof {
                search::lemma_first_index(windows@, p, i as int);
            }
            return Some(i);
        }
        i = i + 1;
    }
    proof {
        search::lemma_no_first_index(windows@, p);
    }
    None
}

/// Follows a window that was moved or resized to its new frame, which is `frame`
/// if the window tells it. When the user drags the upper edge of a window in a
/// stack, the window above it is made to end there, so that the stack does not
/// fight the drag; that change comes back as an event of its own, which is then
/// ignored. After a resize the windows are laid out again around the one with
/// the focus.
pub fn window_update_frame(
    event: &Event,
    swiping: bool,
    windows: &mut Vec<FrameEntry>,
    frame: Option<IRect>,
    strip: &LayoutStrip,
    focused: Option<Entity>,
    initializing: bool,
) -> (update: FrameUpdate)
    requires
        frames_fit(old(windows)@, frame),
    ensures
        final(windows)@ == updated(*event, swiping, old(windows)@, frame, strip@, initializing),
        update == follow_up(
            *event,
            swiping,
            old(windows)@,
            frame,
            strip@,
            focused,
            initializing,
        ),
{
    let mut update = FrameUpdate { settled: None, adjusted: None, reshuffle: None };
    let (window_id, resized) = match event {
        Event::WindowMoved { window_id } => (*window_id, false),
        Event::WindowResized { window_id } => (*window_id, true),
        _ => return update,
    };
    if swiping {
        return update;
    }
    let (i, frame) = match (find_id(windows, window_id), frame) {
        (Some(i), Some(frame)) => (i, frame),
        _ => return update,
    };
    let window = windows[i];
    if window.stack_adjusted {
        update.settled = Some(window.entity);
        return update;
    }
    if strip.index_of(window.entity).is_err() {
        return update;
    }
    let ghost start = windows@;
    let old_frame = IRect::from_corners(window.position, window.position.plus(window.bounds));
    let position = if !resized || old_frame.min != frame.min {
        frame.min
    } else {
        window.position
    };
    let bounds = if resized {
        frame.size()
    } else {
        window.bounds
    };
    windows.set(i, FrameEntry { position, bounds, ..window });
    let ghost moved = windows@;
    assert(moved =~= start.update(i as int, follows(window, frame, resized)));
    if resized && !initializing {
        let shift: i64 = old_frame.max.y as i64 - frame.max.y as i64;
        if old_frame.min.y != frame.min.y && -2 <= shift && shift <= 2 {
            if let Some(above) = strip.above(window.entity) {
                if let Some(k) = find_window(windows, above) {
                    let upper = windows[k];
                    assert(fits(frame.min.y - upper.position.y)) by {
                        if k == i {
                            assert(upper == follows(window, frame, true));
                        } else {
                            assert(upper == start[k as int]);
                        }
                    }
                    let height: i32 = frame.min.y - upper.position.y;
                    if height > 0 {
                        windows.set(
                            k,
                            FrameEntry {
                                bounds: IVec2 { x: upper.bounds.x, y: height },
                                ..upper
                            },
                        );
                    }
                    assert(windows@ =~= moved.update(k as int, ends_at(upper, frame.min.y)));
                }
                update.adjusted = Some(above);
            }
        }
        update.reshuffle = focused;
    }
    update
}

/// While the user swipes nothing follows, and no window is changed.
pub proof fn law_swiping_changes_no_frame(
    event: Event,
    windows: Seq<FrameEntry>,
    frame: Option<IRect>,
    columns: Seq<ColumnModel>,
    focused: Option<Entity>,
    initializing: bool,
)
    ensures
        updated(event, true, windows, frame, columns, initializing) == windows,
        follow_up(event, true, windows, frame, columns, focused, initializing) == (FrameUpdate {
            settled: None,
            adjusted: None,
            reshuffle: None,
        }),
{
}

/// The change that we made to a window's height ourselves is not answered with
/// another one: it only uses up the mark.
pub proof fn law_own_resize_is_not_answered(
    event: Event,
    windows: Seq<FrameEntry>,
    frame: Option<IRect>,
    columns: Seq<ColumnModel>,
    focused: Option<Entity>,
    initializing: bool,
    i: int,
)
    requires
        moved_window(event) is Some,
        search::first_index(windows, has_id(moved_window(event)->0)) == Some(i),
        windows[i].stack_adjusted,
        frame is Some,
    ensures
        updated(event, false, windows, frame, columns, initializing) == windows,
        follow_up(event, false, windows, frame, columns, focused, initializing) == (FrameUpdate {
            settled: Some(windows[i].entity),
            adjusted: None,
            reshuffle: None,
        }),
{
}

/// When the upper edge of a window in a stack is dragged, the window above ends
/// where the dragged one starts.
pub proof fn law_dragged_edge_is_shared(
    event: Event,
    windows: Seq<FrameEntry>,
    frame: IRect,
    columns: Seq<ColumnModel>,
    i: int,
    k: int,
)
    requires
        event is WindowResized,
        followed(event, false, windows, Some(frame), columns) == Some(i),
        0 <= i < windows.len(),
        0 <= k < windows.len(),
        drags_top_edge(windows[i], frame),
        layout::window_above(columns, windows[i].entity) == Some(windows[k].entity),
        windows[k].entity != windows[i].entity,
        search::first_index(windows, is_window(windows[k].entity)) == Some(k),
        frames_fit(windows, Some(frame)),
        frame.min.y > windows[k].position.y,
    ensures
        ({
            let after = updated(event, false, windows, Some(frame), columns, false);
            after[k].position.y + after[k].bounds.y == frame.min.y
        }),
{
    let p = is_window(windows[k].entity);
    let moved = windows.update(i, follows(windows[i], frame, true));
    search::lemma_first_index_meaning(windows, p);
    assert forall|j: int| 0 <= j < k implies !p(#[trigger] moved[j]) by {
        assert(!p(windows[j]));
    }
    search::lemma_first_index(moved, p, k);
    assert(fits(frame.min.y - windows[k].position.y));
}

/// The window grows while it moves.
pub open spec fn is_deferred(moving: bool, current: IVec2, target: IVec2) -> bool {
    moving && (target.x > current.x || target.y > current.y)
}

/// Whether a window that is still being moved is resized later: it would grow
/// past the edge of the screen before it has got out of the way.
pub fn resize_is_deferred(moving: bool, current: IVec2, target: IVec2) -> (deferred: bool)
    ensures
        deferred == is_deferred(moving, current, target),
{
    moving && (target.x > current.x || target.y > current.y)
}

/// One step of an animation.
#[derive(Clone, Copy, Debug, PartialEq, Eq, Structural)]
pub struct AnimationStep {
    /// Where the window is now, or how large.
    pub reached: IVec2,
    /// The end is reached: nothing is left to animate.
    pub done: bool,
}

/// The step that gets this far on the way to the target.
pub open spec fn step_to(reached: IVec2, target: IVec2) -> AnimationStep {
    AnimationStep { reached, done: reached == target }
}

/// A step of a window that moves: `moved` is as far as it gets in this frame.
pub fn animate_entities(moved: IVec2, target: IVec2) -> (step: AnimationStep)
    ensures
        step == step_to(moved, target),
{
    AnimationStep { reached: moved, done: moved == target }
}

/// A step of a window that is resized, unless that is put off: `resized` is as
/// far as it gets in this frame.
pub fn animate_resize_entities(moving: bool, current: IVec2, resized: IVec2, target: IVec2) -> (step:
    Option<AnimationStep>)
    ensures
        step == if is_deferred(moving, current, target) {
            None
        } else {
            Some(step_to(resized, target))
        },
{
    if resize_is_deferred(moving, current, target) {
        None
    } else {
        Some(AnimationStep { reached: resized, done: resized == target })
    }
}

/// A window that was dragged, and whether the pause after the drag is over.
#[derive(Clone, Copy, Debug, PartialEq, Eq, Structural)]
pub struct DraggedWindow {
    pub entity: Entity,
    pub rested: bool,
}

/// Windows that were dragged and have rested since.
pub open spec fn rested() -> spec_fn(DraggedWindow) -> Option<Entity> {
    |w: DraggedWindow|
        if w.rested {
            Some(w.entity)
        } else {
            None
        }
}

/// What becomes of dragged windows.
#[derive(Debug)]
pub enum DragFollowUp {
    /// The user swipes: the drags are forgotten.
    Forget,
    /// The windows are laid out again around each of these.
    Reshuffle(Vec<Entity>),
}

/// What becomes of dragged windows: those that have rested are laid out again,
/// unless the user swipes, which would pull the strip back.
pub fn reposition_dragged_window(swiping: bool, dragged: &Vec<DraggedWindow>) -> (next: DragFollowUp)
    ensures
        swiping ==> next is Forget,
        !swiping ==> next is Reshuffle && next->Reshuffle_0@ == dragged@.filter_map(rested()),
{
    if swiping {
        return DragFollowUp::Forget;
    }
    let ghost f = rested();
    let mut windows: Vec<Entity> = Vec::new();
    let mut i: usize = 0;
    while i < dragged.len()
        invariant
            i <= dragged.len(),
            f == rested(),
            windows@ == dragged@.take(i as int).filter_map(f),
        decreases dragged.len() - i,
    {
        proof {
            dragged@.lemma_filter_map_take_succ(f, i as int);
        }
        if dragged[i].rested {
            windows.push(dragged[i].entity);
        }
        i = i + 1;
    }
    assert(dragged@.take(i as int) == dragged@);
    DragFollowUp::Reshuffle(windows)
}

} // verus!
