//! When windows are put onto a strip and taken off it.
use vstd::prelude::*;

use crate::clock::Instant;
use crate::events::Event;
use crate::floating;
use crate::floating::{clamp_origin_to_bounds, offset_frame_within_bounds};
use crate::geometry::{divide, fits, quot, Entity, IRect, IVec2};
use crate::layout;
use crate::layout::positions;
use crate::layout::positions::{ask, read};
use crate::layout::{ColumnModel, LayoutStrip, WorkspaceId};
use crate::observation;
use crate::number::Number;
use crate::observation::{detach_unmanaged_window, Detachment};
use crate::search;
use crate::triggers::defaults;
use crate::triggers::defaults::{rule_size, PaddedDisplay, SharedSize};
use crate::triggers::focus;
use crate::triggers::focus::{give_away_focus, middle_of};
use crate::triggers::{Unmanaged, WindowDisposition};
use crate::windowset::WinID;

verus! {

// ---------------------------------------------------------------------------
// Strips
// ---------------------------------------------------------------------------
/// A strip, its place among those of its space, and whether it is shown.
#[derive(Debug)]
pub struct VirtualStrip {
    pub strip: LayoutStrip,
    pub virtual_index: u32,
    pub active: bool,
}

/// What a [`VirtualStrip`] holds.
pub struct VirtualModel {
    pub id: WorkspaceId,
    pub columns: Seq<ColumnModel>,
    pub virtual_index: u32,
    pub active: bool,
}

impl View for VirtualStrip {
    type V = VirtualModel;

    open spec fn view(&self) -> VirtualModel {
        VirtualModel {
            id: self.strip.spec_id(),
            columns: self.strip@,
            virtual_index: self.virtual_index,
            active: self.active,
        }
    }
}

/// What some strips hold.
pub open spec fn strips_view(strips: Seq<VirtualStrip>) -> Seq<VirtualModel> {
    strips.map_values(|s: VirtualStrip| s@)
}

/// A strip without a window.
pub open spec fn strip_without(entity: Entity) -> spec_fn(VirtualModel) -> VirtualModel {
    |s: VirtualModel| VirtualModel { columns: layout::removed(s.columns, entity), ..s }
}

/// The strips with other columns on one of them.
pub open spec fn with_columns(
    strips: Seq<VirtualModel>,
    i: int,
    columns: Seq<ColumnModel>,
) -> Seq<VirtualModel> {
    strips.update(i, VirtualModel { columns, ..strips[i] })
}

/// Strips that hold a window.
pub open spec fn strip_with(entity: Entity) -> spec_fn(VirtualModel) -> bool {
    |s: VirtualModel| layout::index(s.columns, entity) is Some
}

/// Strips that are shown.
pub open spec fn is_shown() -> spec_fn(VirtualModel) -> bool {
    |s: VirtualModel| s.active
}

/// Takes a window off each strip.
fn take_off(entity: Entity, strips: &mut Vec<VirtualStrip>)
    ensures
        strips_view(final(strips)@) == strips_view(old(strips)@).map_values(strip_without(entity)),
{
    let ghost before = strips_view(strips@);
    let ghost f = strip_without(entity);
    let mut i: usize = 0;
    while i < strips.len()
        invariant
            i <= strips.len(),
            strips.len() == before.len(),
            f == strip_without(entity),
            forall|j: int| 0 <= j < i ==> (#[trigger] strips@[j])@ == f(before[j]),
            forall|j: int| i <= j < strips.len() ==> (#[trigger] strips@[j])@ == before[j],
        decreases strips.len() - i,
    {
        assert(strips@[i as int]@ == before[i as int]);
        strips[i].strip.remove(entity);
        i = i + 1;
    }
    assert(strips_view(strips@) =~= before.map_values(f));
}

/// The first strip that holds a window.
pub(crate) fn find_holder(entity: Entity, strips: &Vec<VirtualStrip>) -> (found: Option<usize>)
    ensures
        found is Some == search::first_index(strips_view(strips@), strip_with(entity)) is Some,
        found is Some ==> found->0 < strips.len() && search::first_index(
            strips_view(strips@),
            strip_with(entity),
        ) == Some(found->0 as int),
{
    let ghost view = strips_view(strips@);
    let ghost p = strip_with(entity);
    let mut i: usize = 0;
    while i < strips.len()
        invariant
            i <= strips.len(),
            view == strips_view(strips@),
            p == strip_with(entity),
            forall|j: int| 0 <= j < i ==> !p(#[trigger] view[j]),
        decreases strips.len() - i,
    {
        assert(view[i as int] == strips@[i as int]@);
        if strips[i].strip.index_of(entity).is_ok() {
            proof {
                search::lemma_first_index(view, p, i as int);
            }
            return Some(i);
        }
        i = i + 1;
    }
    proof {
        search::lemma_no_first_index(view, p);
    }
    None
}

/// The first strip that is shown.
pub(crate) fn find_shown(strips: &Vec<VirtualStrip>) -> (found: Option<usize>)
    ensures
        found is Some == search::first_index(strips_view(strips@), is_shown()) is Some,
        found is Some ==> found->0 < strips.len() && search::first_index(
            strips_view(strips@),
            is_shown(),
        ) == Some(found->0 as int),
{
    let ghost view = strips_view(strips@);
    let ghost p = is_shown();
    let mut i: usize = 0;
    while i < strips.len()
        invariant
            i <= strips.len(),
            view == strips_view(strips@),
            p == is_shown(),
            forall|j: int| 0 <= j < i ==> !p(#[trigger] view[j]),
        decreases strips.len() - i,
    {
        assert(view[i as int] == strips@[i as int]@);
        if strips[i].active {
            proof {
                search::lemma_first_index(view, p, i as int);
            }
            return Some(i);
        }
        i = i + 1;
    }
    proof {
        search::lemma_no_first_index(view, p);
    }
    None
}

/// The strips after a window is gone: it is off the first that held it.
pub open spec fn after_removal(strips: Seq<VirtualModel>, entity: Entity) -> Seq<VirtualModel> {
    match search::first_index(strips, strip_with(entity)) {
        Some(i) => with_columns(strips, i, layout::removed(strips[i].columns, entity)),
        None => strips,
    }
}

/// Takes a window that is gone off its strip.
pub fn window_removal_trigger(entity: Entity, strips: &mut Vec<VirtualStrip>)
    ensures
        strips_view(final(strips)@) == after_removal(strips_view(old(strips)@), entity),
{
    let ghost before = strips_view(strips@);
    if let Some(i) = find_holder(entity, strips) {
        assert(before[i as int] == strips@[i as int]@);
        strips[i].strip.remove(entity);
        assert(strips_view(strips@) =~= after_removal(before, entity));
    }
}

// ---------------------------------------------------------------------------
// A window floats
// ---------------------------------------------------------------------------
/// How much of the display a window that begins to float may fill, in fifths.
pub const UNMANAGED_MAX_SCREEN_FIFTHS: i32 = 4;

/// How far a window that begins to float pops out.
pub const UNMANAGED_POP_OFFSET: i32 = 32;

/// The length of a window that begins to float: no more than a part of the
/// display's.
pub open spec fn float_length(window: int, display: int) -> int {
    let most = quot(display * UNMANAGED_MAX_SCREEN_FIFTHS, 5);
    if window < most {
        window
    } else {
        most
    }
}

/// The frame of a window that begins to float, before it pops out: its size is
/// limited, and it is moved onto the display.
pub open spec fn float_base(frame: IRect, display: IRect) -> IRect {
    let width = float_length(frame.spec_width(), display.spec_width());
    let height = float_length(frame.spec_height(), display.spec_height());
    let x = floating::start_within(
        frame.min.x as int,
        width,
        display.min.x as int,
        display.max.x as int,
    );
    let y = floating::start_within(
        frame.min.y as int,
        height,
        display.min.y as int,
        display.max.y as int,
    );
    IRect {
        min: IVec2 { x: x as i32, y: y as i32 },
        max: IVec2 { x: (x + width) as i32, y: (y + height) as i32 },
    }
}

/// The frame of a window that begins to float: left, top, right and bottom.
pub open spec fn float_frame(frame: IRect, display: IRect) -> (int, int, int, int) {
    let base = float_base(frame, display);
    match search::first_where(
        floating::offsets(UNMANAGED_POP_OFFSET as int),
        floating::stays_within(base, display),
    ) {
        Some(by) => floating::moved(base, by),
        None => (base.min.x as int, base.min.y as int, base.max.x as int, base.max.y as int),
    }
}

/// Frame and display are such that the arithmetic fits.
pub open spec fn can_float(frame: IRect, display: IRect) -> bool {
    &&& frame.proper()
    &&& frame.measurable()
    &&& display.proper()
    &&& display.measurable()
    &&& fits(display.spec_width() * UNMANAGED_MAX_SCREEN_FIFTHS)
    &&& fits(display.spec_height() * UNMANAGED_MAX_SCREEN_FIFTHS)
}

/// Where a window goes, and how large it becomes, where that changes.
#[derive(Clone, Copy, Debug, PartialEq, Eq, Structural)]
pub struct Reframing {
    pub resize: Option<IVec2>,
    pub reposition: Option<IVec2>,
}

/// The reframing takes a frame to these coordinates, and asks for no more than
/// that takes.
pub open spec fn reframes(reframing: Reframing, frame: IRect, to: (int, int, int, int)) -> bool {
    let (left, top, right, bottom) = to;
    let same_size = right - left == frame.spec_width() && bottom - top == frame.spec_height();
    let same_place = left == frame.min.x && top == frame.min.y;
    &&& reframing.resize is None <==> same_size
    &&& reframing.resize is Some ==> reframing.resize->0.x == right - left
        && reframing.resize->0.y == bottom - top
    &&& reframing.reposition is None <==> same_place
    &&& reframing.reposition is Some ==> reframing.reposition->0.x == left
        && reframing.reposition->0.y == top
}

/// The limited length of a window that begins to float is one that it can have.
proof fn lemma_float_length(window: int, display: int)
    requires
        0 <= window,
        0 <= display,
    ensures
        0 <= float_length(window, display) <= window,
        float_length(window, display) <= display,
        5 * float_length(window, display) <= UNMANAGED_MAX_SCREEN_FIFTHS * display,
{
}

/// The place and size of a window that begins to float: it is made smaller where
/// it fills too much of the display, moved onto the display, and pops out.
pub fn float_window(frame: &IRect, display: &IRect) -> (reframing: Reframing)
    requires
        can_float(*frame, *display),
    ensures
        reframes(reframing, *frame, float_frame(*frame, *display)),
{
    proof {
        lemma_float_length(frame.spec_width(), display.spec_width());
        lemma_float_length(frame.spec_height(), display.spec_height());
        law_floating_window_is_on_the_display(*frame, *display);
    }
    let max_width: i32 = divide(display.width() * UNMANAGED_MAX_SCREEN_FIFTHS, 5);
    let max_height: i32 = divide(display.height() * UNMANAGED_MAX_SCREEN_FIFTHS, 5);
    let width: i32 = if frame.width() < max_width {
        frame.width()
    } else {
        max_width
    };
    let height: i32 = if frame.height() < max_height {
        frame.height()
    } else {
        max_height
    };
    let size = IVec2 { x: width, y: height };
    let limited = IRect::from_corners(frame.min, frame.min.plus(size));
    let base = clamp_origin_to_bounds(limited, limited.size(), *display);
    assert(base == float_base(*frame, *display));
    let target = offset_frame_within_bounds(base, *display, UNMANAGED_POP_OFFSET);
    let resize = if target.size() != frame.size() {
        Some(target.size())
    } else {
        None
    };
    let reposition = if target.min != frame.min {
        Some(target.min)
    } else {
        None
    };
    Reframing { resize, reposition }
}

/// A window that begins to float is on the display as a whole, fills no more
/// than its part of it, and is not made larger.
pub proof fn law_floating_window_is_on_the_display(frame: IRect, display: IRect)
    requires
        can_float(frame, display),
    ensures
        floating::is_within(float_frame(frame, display), display),
        ({
            let (left, top, right, bottom) = float_frame(frame, display);
            &&& 0 <= right - left <= frame.spec_width()
            &&& 0 <= bottom - top <= frame.spec_height()
            &&& 5 * (right - left) <= UNMANAGED_MAX_SCREEN_FIFTHS * display.spec_width()
            &&& 5 * (bottom - top) <= UNMANAGED_MAX_SCREEN_FIFTHS * display.spec_height()
        }),
{
    lemma_float_length(frame.spec_width(), display.spec_width());
    lemma_float_length(frame.spec_height(), display.spec_height());
    let base = float_base(frame, display);
    let p = floating::stays_within(base, display);
    let all = floating::offsets(UNMANAGED_POP_OFFSET as int);
    search::lemma_first_index_meaning(all, p);
    if let Some(by) = search::first_where(all, p) {
        assert(p(by));
    }
}

/// The application of a window.
#[derive(Clone, Copy, Debug, PartialEq, Eq, Structural)]
pub struct OwningApp {
    pub entity: Entity,
    pub observed: bool,
    pub frontmost: bool,
}

/// A window of this application is laid out, other than this one.
pub open spec fn owns_other(managed: Seq<(Entity, Entity)>, entity: Entity, app: Entity) -> bool {
    exists|i: int|
        0 <= i < managed.len() && (#[trigger] managed[i]).0 != entity && managed[i].1 == app
}

/// Whether another window of this application is laid out.
fn owns_other_managed(managed: &Vec<(Entity, Entity)>, entity: Entity, app: Entity) -> (owns: bool)
    ensures
        owns == owns_other(managed@, entity, app),
{
    let mut i: usize = 0;
    while i < managed.len()
        invariant
            i <= managed.len(),
            forall|j: int|
                0 <= j < i ==> !((#[trigger] managed@[j]).0 != entity && managed@[j].1 == app),
        decreases managed.len() - i,
    {
        let (window, parent) = managed[i];
        if window != entity && parent == app {
            return true;
        }
        i = i + 1;
    }
    false
}

/// What is known of a window that is no longer laid out.
#[derive(Clone, Copy, Debug)]
pub struct UnmanagedWindow {
    pub entity: Entity,
    pub unmanaged: Option<Unmanaged>,
    /// The window's application, if window and application are known.
    pub app: Option<OwningApp>,
    pub frame: Option<IRect>,
    /// Place and size that a rule gives it.
    pub grid: Option<(IVec2, IVec2)>,
    /// A rule says that it floats.
    pub floats_by_rule: bool,
}

impl UnmanagedWindow {
    /// The window floats or is left alone from now on.
    pub open spec fn leaves_strips(self) -> bool {
        self.unmanaged == Some(Unmanaged::Floating) || self.unmanaged == Some(
            Unmanaged::Passthrough,
        )
    }

    /// The window gets a place of its own above the strip.
    pub open spec fn is_placed(self, initializing: bool) -> bool {
        self.unmanaged == Some(Unmanaged::Floating) && self.app is Some && !initializing
    }

    /// The window is placed by its own frame.
    pub open spec fn pops_out(self, initializing: bool) -> bool {
        self.is_placed(initializing) && self.grid is None && !self.floats_by_rule
            && self.frame is Some
    }

    /// The reframing is the one that this window gets.
    pub open spec fn is_reframed(
        self,
        display: IRect,
        initializing: bool,
        reframing: Reframing,
    ) -> bool {
        if self.is_placed(initializing) && self.grid is Some {
            reframing == (Reframing {
                resize: Some((self.grid->0).1),
                reposition: Some((self.grid->0).0),
            })
        } else if self.pops_out(initializing) {
            reframes(reframing, self.frame->0, float_frame(self.frame->0, display))
        } else {
            reframing == (Reframing { resize: None, reposition: None })
        }
    }
}

/// The strips after a window is no longer laid out: one that floats or is left alone is
/// on none.
pub open spec fn after_unmanaging(strips: Seq<VirtualModel>, window: UnmanagedWindow) -> Seq<
    VirtualModel,
> {
    if window.leaves_strips() {
        strips.map_values(strip_without(window.entity))
    } else {
        strips
    }
}

/// Takes a window that floats or is left alone off the strips, detaches what
/// observed it, and places it if it floats. During start-up it stays where it
/// is.
pub fn window_unmanaged_trigger<G: FnOnce() -> bool, F: FnOnce() -> bool>(
    window: &UnmanagedWindow,
    strips: &mut Vec<VirtualStrip>,
    managed: &Vec<(Entity, Entity)>,
    display: &IRect,
    initializing: bool,
    unobserve_window: G,
    unobserve: F,
    now: Instant,
) -> (outcome: (Option<Detachment>, Reframing))
    requires
        window.pops_out(initializing) ==> can_float(window.frame->0, *display),
        now.nanos + observation::DETACH_RETRY_NANOS <= u64::MAX,
        window.leaves_strips() && window.app is Some ==> call_requires(unobserve_window, ())
            && call_requires(unobserve, ()),
    ensures
        strips_view(final(strips)@) == after_unmanaging(strips_view(old(strips)@), *window),
        outcome.0 is Some == (window.leaves_strips() && window.app is Some),
        outcome.0 is Some ==> {
            let app = window.app->0;
            is_detachment(
                outcome.0->0,
                app,
                owns_other(managed@, window.entity, app.entity),
                unobserve_window,
                unobserve,
                now,
            )
        },
        window.is_reframed(*display, initializing, outcome.1),
{
    let stay = Reframing { resize: None, reposition: None };
    let leaves = match window.unmanaged {
        Some(Unmanaged::Floating) => true,
        Some(Unmanaged::Passthrough) => true,
        _ => false,
    };
    if !leaves {
        return (None, stay);
    }
    take_off(window.entity, strips);
    let app = match window.app {
        Some(app) => app,
        None => return (None, stay),
    };
    let still_owns_managed = owns_other_managed(managed, window.entity, app.entity);
    let detached = unobserve_window();
    let detachment = detach_unmanaged_window(
        detached,
        app.observed,
        app.frontmost,
        still_owns_managed,
        unobserve,
        now,
    );
    assert(call_ensures(unobserve_window, (), detached));
    if let Some(Unmanaged::Passthrough) = window.unmanaged {
        return (Some(detachment), stay);
    }
    if !initializing {
        if let Some((origin, size)) = window.grid {
            return (Some(detachment), Reframing { resize: Some(size), reposition: Some(origin) });
        }
        if !window.floats_by_rule {
            if let Some(frame) = &window.frame {
                return (Some(detachment), float_window(frame, display));
            }
        }
    }
    (Some(detachment), stay)
}

// ---------------------------------------------------------------------------
// A window is minimized or hidden
// ---------------------------------------------------------------------------
/// Where a window was before it was minimized or hidden.
#[derive(Clone, Copy, Debug, PartialEq, Eq, Structural)]
pub struct PreviousManagedStrip {
    pub workspace_id: WorkspaceId,
    pub virtual_index: u32,
    pub index: usize,
}

/// Where a window was: on the last strip that held it.
pub open spec fn remembered(strips: Seq<VirtualModel>, entity: Entity) -> Option<
    PreviousManagedStrip,
> {
    match search::last_index(strips, strip_with(entity)) {
        Some(i) => Some(
            PreviousManagedStrip {
                workspace_id: strips[i].id,
                virtual_index: strips[i].virtual_index,
                index: layout::index(strips[i].columns, entity)->0 as usize,
            },
        ),
        None => None,
    }
}

/// Where a window is on the strips.
fn remember(entity: Entity, strips: &Vec<VirtualStrip>) -> (previous: Option<PreviousManagedStrip>)
    ensures
        previous == remembered(strips_view(strips@), entity),
{
    let ghost view = strips_view(strips@);
    let ghost p = strip_with(entity);
    let mut i: usize = strips.len();
    while i > 0
        invariant
            i <= strips.len(),
            view == strips_view(strips@),
            p == strip_with(entity),
            forall|j: int| i <= j < strips.len() ==> !p(#[trigger] view[j]),
        decreases i,
    {
        i = i - 1;
        assert(view[i as int] == strips@[i as int]@);
        if let Ok(index) = strips[i].strip.index_of(entity) {
            proof {
                search::lemma_last_index(view, p, i as int);
            }
            return Some(
                PreviousManagedStrip {
                    workspace_id: strips[i].strip.id(),
                    virtual_index: strips[i].virtual_index,
                    index,
                },
            );
        }
    }
    proof {
        search::lemma_no_last_index(view, p);
    }
    None
}

/// The windows that get the focus of one that goes, a strip that is shown each.
pub open spec fn are_heirs(
    heirs: Seq<Option<Entity>>,
    strips: Seq<VirtualModel>,
    entity: Entity,
    tabbed: bool,
    frame: spec_fn(Entity) -> Option<IRect>,
    from: int,
    known: Seq<Entity>,
) -> bool {
    &&& heirs.len() == strips.len()
    &&& forall|i: int|
        0 <= i < strips.len() ==> if strips[i].active {
            focus::inherits(#[trigger] heirs[i], strips[i].columns, entity, tabbed, frame, from, known)
        } else {
            heirs[i] is None
        }
}

/// The windows that get the focus of one that goes.
fn find_heirs<W: Fn(Entity) -> Option<IRect>>(
    entity: Entity,
    tabbed: bool,
    strips: &Vec<VirtualStrip>,
    viewport: &IRect,
    moving_frame: &W,
    known: &Vec<Entity>,
) -> (heirs: Vec<Option<Entity>>)
    requires
        positions::steady(*moving_frame),
    ensures
        forall|frame: spec_fn(Entity) -> Option<IRect>| #[trigger]
            positions::answers(*moving_frame, frame) ==> are_heirs(
                heirs@,
                strips_view(strips@),
                entity,
                tabbed,
                frame,
                focus::middle(*viewport),
                known@,
            ),
{
    let ghost view = strips_view(strips@);
    let ghost from = focus::middle(*viewport);
    let mut heirs: Vec<Option<Entity>> = Vec::new();
    let mut i: usize = 0;
    while i < strips.len()
        invariant
            i <= strips.len(),
            view == strips_view(strips@),
            from == focus::middle(*viewport),
            positions::steady(*moving_frame),
            forall|frame: spec_fn(Entity) -> Option<IRect>| #[trigger]
                positions::answers(*moving_frame, frame) ==> are_heirs(
                    heirs@,
                    view.take(i as int),
                    entity,
                    tabbed,
                    frame,
                    from,
                    known@,
                ),
        decreases strips.len() - i,
    {
        let ghost before = heirs@;
        let heir = if strips[i].active {
            give_away_focus(entity, tabbed, &strips[i].strip, viewport, moving_frame, known)
        } else {
            None
        };
        heirs.push(heir);
        proof {
            let t = view.take(i + 1);
            assert(view[i as int] == strips@[i as int]@);
            assert forall|frame: spec_fn(Entity) -> Option<IRect>| #[trigger]
                positions::answers(*moving_frame, frame) implies are_heirs(
                heirs@,
                t,
                entity,
                tabbed,
                frame,
                from,
                known@,
            ) by {
                assert forall|j: int| 0 <= j < t.len() implies if t[j].active {
                    focus::inherits(
                        #[trigger] heirs@[j],
                        t[j].columns,
                        entity,
                        tabbed,
                        frame,
                        from,
                        known@,
                    )
                } else {
                    heirs@[j] is None
                } by {
                    if j < i {
                        assert(heirs@[j] == before[j]);
                        assert(t[j] == view.take(i as int)[j]);
                    }
                }
            }
        }
        i = i + 1;
    }
    assert(view.take(i as int) == view);
    heirs
}

/// What becomes of a window that is minimized or hidden.
#[derive(Debug)]
pub struct Minimized {
    /// Where it was.
    pub previous: Option<PreviousManagedStrip>,
    /// The windows that get the focus, for each strip that is shown.
    pub heirs: Vec<Option<Entity>>,
}

/// The window is minimized, or hidden with its application.
pub open spec fn goes_out_of_sight(unmanaged: Option<Unmanaged>) -> bool {
    unmanaged == Some(Unmanaged::Minimized) || unmanaged == Some(Unmanaged::Hidden)
}

/// Takes a window that is minimized or hidden off the strips, and says where it
/// was and which windows get the focus. Others stay.
pub fn window_minimized_trigger<W: Fn(Entity) -> Option<IRect>>(
    entity: Entity,
    unmanaged: Option<Unmanaged>,
    tabbed: bool,
    strips: &mut Vec<VirtualStrip>,
    viewport: &IRect,
    moving_frame: &W,
    known: &Vec<Entity>,
) -> (minimized: Option<Minimized>)
    requires
        positions::steady(*moving_frame),
    ensures
        minimized is Some == goes_out_of_sight(unmanaged),
        minimized is None ==> strips_view(final(strips)@) == strips_view(old(strips)@),
        minimized is Some ==> minimized->0.previous == remembered(
            strips_view(old(strips)@),
            entity,
        ) && strips_view(final(strips)@) == strips_view(old(strips)@).map_values(
            strip_without(entity),
        ),
        minimized is Some ==> forall|frame: spec_fn(Entity) -> Option<IRect>| #[trigger]
            positions::answers(*moving_frame, frame) ==> are_heirs(
                minimized->0.heirs@,
                strips_view(old(strips)@),
                entity,
                tabbed,
                frame,
                focus::middle(*viewport),
                known@,
            ),
{
    let leaves = match unmanaged {
        Some(Unmanaged::Minimized) => true,
        Some(Unmanaged::Hidden) => true,
        _ => false,
    };
    if !leaves {
        return None;
    }
    let heirs = find_heirs(entity, tabbed, strips, viewport, moving_frame, known);
    let previous = remember(entity, strips);
    take_off(entity, strips);
    Some(Minimized { previous, heirs })
}

// ---------------------------------------------------------------------------
// A window is destroyed
// ---------------------------------------------------------------------------
/// What is known of a window that may be gone.
#[derive(Clone, Copy, Debug)]
pub struct ReportedWindow {
    pub id: WinID,
    pub entity: Entity,
    /// It still answers.
    pub answers: bool,
    /// Its application, if that is known.
    pub app: Option<OwningApp>,
    /// It shares a tab with others on the strip that is shown.
    pub tabbed: bool,
}

/// Windows with this number.
pub open spec fn is_reported(id: WinID) -> spec_fn(ReportedWindow) -> bool {
    |w: ReportedWindow| w.id == id
}

/// The window that an event destroys: one that is known, does not answer any more, and
/// whose application is known.
pub open spec fn destroyed(event: Event, windows: Seq<ReportedWindow>) -> Option<ReportedWindow> {
    match event {
        Event::WindowDestroyed { window_id, .. } => match search::first_where(
            windows,
            is_reported(window_id),
        ) {
            Some(window) => if !window.answers && window.app is Some {
                Some(window)
            } else {
                None
            },
            None => None,
        },
        _ => None,
    }
}

/// The detachment is what follows from taking observers off.
pub open spec fn is_detachment<G: FnOnce() -> bool, F: FnOnce() -> bool>(
    detachment: Detachment,
    app: OwningApp,
    owns_other: bool,
    unobserve_window: G,
    unobserve: F,
    now: Instant,
) -> bool {
    let lets_go = observation::lets_go(app.observed, app.frontmost, owns_other);
    exists|detached: bool|
        {
            &&& #[trigger] call_ensures(unobserve_window, (), detached)
            &&& !lets_go ==> !detachment.unmark
            &&& lets_go ==> call_ensures(unobserve, (), detachment.unmark)
            &&& detachment.retry == if lets_go && !detachment.unmark {
                Some(observation::ObserverDetachRetry::scheduled(true, now))
            } else if !detached {
                Some(observation::ObserverDetachRetry::scheduled(false, now))
            } else {
                None
            }
        }
}

/// What becomes of a window that is destroyed. It is removed and no longer remembered as
/// focused; it leaves its strip when it is removed.
#[derive(Debug)]
pub struct Destroyed {
    pub entity: Entity,
    pub detachment: Detachment,
    /// The window that gets the focus.
    pub heir: Option<Entity>,
}

/// The first window with a number.
fn find_reported(windows: &Vec<ReportedWindow>, id: WinID) -> (found: Option<ReportedWindow>)
    ensures
        found == search::first_where(windows@, is_reported(id)),
{
    let ghost p = is_reported(id);
    let mut i: usize = 0;
    while i < windows.len()
        invariant
            i <= windows.len(),
            p == is_reported(id),
            forall|j: int| 0 <= j < i ==> !p(#[trigger] windows@[j]),
        decreases windows.len() - i,
    {
        if windows[i].id == id {
            proof {
                search::lemma_first_index(windows@, p, i as int);
            }
            return Some(windows[i]);
        }
        i = i + 1;
    }
    proof {
        search::lemma_no_first_index(windows@, p);
    }
    None
}

/// Takes leave of a window that is reported as destroyed: what observed it is detached,
/// and a neighbour on the strip that is shown gets the focus. A window that is not known
/// any more is ignored, and so is one that still answers, which has only left its space.
pub fn window_destroyed_trigger<
    W: Fn(Entity) -> Option<IRect>,
    G: FnOnce() -> bool,
    F: FnOnce() -> bool,
>(
    event: &Event,
    windows: &Vec<ReportedWindow>,
    managed: &Vec<(Entity, Entity)>,
    active_strip: &LayoutStrip,
    viewport: &IRect,
    moving_frame: &W,
    known: &Vec<Entity>,
    unobserve_window: G,
    unobserve: F,
    now: Instant,
) -> (gone: Option<Destroyed>)
    requires
        positions::steady(*moving_frame),
        now.nanos + observation::DETACH_RETRY_NANOS <= u64::MAX,
        destroyed(*event, windows@) is Some ==> call_requires(unobserve_window, ())
            && call_requires(unobserve, ()),
    ensures
        gone is Some <==> destroyed(*event, windows@) is Some,
        gone matches Some(gone) ==> {
            let window = destroyed(*event, windows@)->0;
            let app = window.app->0;
            &&& gone.entity == window.entity
            &&& is_detachment(
                gone.detachment,
                app,
                owns_other(managed@, window.entity, app.entity),
                unobserve_window,
                unobserve,
                now,
            )
            &&& forall|frame: spec_fn(Entity) -> Option<IRect>| #[trigger]
                positions::answers(*moving_frame, frame) ==> focus::inherits(
                    gone.heir,
                    active_strip@,
                    window.entity,
                    window.tabbed,
                    frame,
                    focus::middle(*viewport),
                    known@,
                )
        },
{
    let window_id = match event {
        Event::WindowDestroyed { window_id, .. } => *window_id,
        _ => return None,
    };
    let window = match find_reported(windows, window_id) {
        Some(window) => window,
        None => return None,
    };
    if window.answers {
        return None;
    }
    let app = match window.app {
        Some(app) => app,
        None => return None,
    };
    let still_owns_managed = owns_other_managed(managed, window.entity, app.entity);
    let detached = unobserve_window();
    let detachment = detach_unmanaged_window(
        detached,
        app.observed,
        app.frontmost,
        still_owns_managed,
        unobserve,
        now,
    );
    assert(call_ensures(unobserve_window, (), detached));
    let heir = give_away_focus(
        window.entity,
        window.tabbed,
        active_strip,
        viewport,
        moving_frame,
        known,
    );
    Some(Destroyed { entity: window.entity, detachment, heir })
}

// ---------------------------------------------------------------------------
// A window comes back
// ---------------------------------------------------------------------------
/// Strips that a window was on.
pub open spec fn is_previous(previous: PreviousManagedStrip) -> spec_fn(VirtualModel) -> bool {
    |s: VirtualModel| s.id == previous.workspace_id && s.virtual_index == previous.virtual_index
}

/// The first strip that a window was on.
fn find_previous(previous: PreviousManagedStrip, strips: &Vec<VirtualStrip>) -> (found: Option<usize>)
    ensures
        found is Some == search::first_index(
            strips_view(strips@),
            is_previous(previous),
        ) is Some,
        found is Some ==> found->0 < strips.len() && search::first_index(
            strips_view(strips@),
            is_previous(previous),
        ) == Some(found->0 as int),
{
    let ghost view = strips_view(strips@);
    let ghost p = is_previous(previous);
    let mut i: usize = 0;
    while i < strips.len()
        invariant
            i <= strips.len(),
            view == strips_view(strips@),
            p == is_previous(previous),
            forall|j: int| 0 <= j < i ==> !p(#[trigger] view[j]),
        decreases strips.len() - i,
    {
        assert(view[i as int] == strips@[i as int]@);
        if strips[i].strip.id() == previous.workspace_id && strips[i].virtual_index
            == previous.virtual_index {
            proof {
                search::lemma_first_index(view, p, i as int);
            }
            return Some(i);
        }
        i = i + 1;
    }
    proof {
        search::lemma_no_first_index(view, p);
    }
    None
}

/// Windows whose middle is right of a place.
pub open spec fn is_right_of(frame: spec_fn(Entity) -> Option<IRect>, x: int) -> spec_fn(
    Entity,
) -> bool {
    |e: Entity| frame(e) is Some && focus::middle(frame(e)->0) > x
}

/// The column that a window is over: the first whose middle is right of the
/// window's own, or the end.
pub open spec fn column_under(
    columns: Seq<ColumnModel>,
    entity: Entity,
    frame: spec_fn(Entity) -> Option<IRect>,
) -> int {
    if frame(entity) is None {
        columns.len() as int
    } else {
        match search::first_index(
            layout::tops(columns),
            is_right_of(frame, focus::middle(frame(entity)->0)),
        ) {
            Some(i) => i,
            None => columns.len() as int,
        }
    }
}

/// The column that a window is over.
fn find_column_under<W: Fn(Entity) -> Option<IRect>>(
    strip: &LayoutStrip,
    entity: Entity,
    get_frame: &W,
) -> (index: usize)
    requires
        positions::steady(*get_frame),
    ensures
        forall|frame: spec_fn(Entity) -> Option<IRect>| #[trigger]
            positions::answers(*get_frame, frame) ==> index == column_under(strip@, entity, frame),
{
    let mut windows = strip.all_columns();
    windows.push(entity);
    let table = ask(&windows, get_frame);
    proof {
        let f = positions::noted(table@);
        let tops = layout::tops(strip@);
        assert forall|frame: spec_fn(Entity) -> Option<IRect>| #[trigger]
            positions::answers(*get_frame, frame) implies column_under(strip@, entity, f)
            == column_under(strip@, entity, frame) by {
            assert(windows@[tops.len() as int] == entity);
            assert(windows@.contains(entity));
            let x = focus::middle(f(entity)->0);
            assert forall|i: int| 0 <= i < tops.len() implies is_right_of(f, x)(#[trigger] tops[i])
                == is_right_of(frame, x)(tops[i]) by {
                assert(windows@[i] == tops[i]);
                assert(windows@.contains(tops[i]));
            }
            search::lemma_first_index_same(tops, is_right_of(f, x), is_right_of(frame, x));
        }
    }
    column_over(strip, entity, &table)
}

/// The column that a window is over, where the table holds the frames.
fn column_over(strip: &LayoutStrip, entity: Entity, table: &Vec<(Entity, Option<IRect>)>) -> (index:
    usize)
    ensures
        index == column_under(strip@, entity, positions::noted(table@)),
{
    let ghost frame = positions::noted(table@);
    let own = match read(table, entity) {
        Some(own) => own,
        None => return strip.len(),
    };
    let x: i64 = middle_of(&own);
    let ghost p = is_right_of(frame, x as int);
    let tops = strip.all_columns();
    let mut i: usize = 0;
    while i < tops.len()
        invariant
            i <= tops.len(),
            frame == positions::noted(table@),
            p == is_right_of(frame, x as int),
            tops@ == layout::tops(strip@),
            frame(entity) == Some(own),
            x == focus::middle(own),
            forall|j: int| 0 <= j < i ==> !p(#[trigger] tops@[j]),
        decreases tops.len() - i,
    {
        if let Some(other) = read(table, tops[i]) {
            if middle_of(&other) > x {
                proof {
                    search::lemma_first_index(tops@, p, i as int);
                }
                return i;
            }
        }
        i = i + 1;
    }
    proof {
        search::lemma_no_first_index(tops@, p);
    }
    strip.len()
}

/// The strips after a window has come back: it is where a rule puts it or where
/// it was, on the strip that it was on; if that is gone, on the one that is
/// shown, and without a place of its own at the column that it is over.
pub open spec fn after_return(
    strips: Seq<VirtualModel>,
    entity: Entity,
    insertion: Option<usize>,
    previous: Option<PreviousManagedStrip>,
    frame: spec_fn(Entity) -> Option<IRect>,
) -> Seq<VirtualModel> {
    let bare = strips.map_values(strip_without(entity));
    let at = if insertion is Some {
        insertion
    } else if previous is Some {
        Some(previous->0.index)
    } else {
        None
    };
    let home = if previous is Some {
        search::first_index(bare, is_previous(previous->0))
    } else {
        None
    };
    let i = if home is Some {
        home
    } else {
        search::first_index(bare, is_shown())
    };
    match i {
        Some(i) => with_columns(
            bare,
            i,
            layout::inserted(
                bare[i].columns,
                if at is Some {
                    at->0 as int
                } else {
                    column_under(bare[i].columns, entity, frame)
                },
                entity,
            ),
        ),
        None => bare,
    }
}

/// What becomes of a window that is no longer marked as not laid out.
#[derive(Clone, Copy, Debug, PartialEq, Eq, Structural)]
pub enum ManagedAgain {
    /// It is not one that is laid out, or it is gone.
    Ignored,
    /// It is observed, and put onto a strip when the start-up is over.
    Observed,
    /// It is observed and back on a strip. Its place is verified, it is brought into
    /// view, and where it was is forgotten.
    Placed,
}

/// What happens to a window that is managed again.
pub open spec fn answer_to_return(
    disposition: Option<WindowDisposition>,
    gone: bool,
    initializing: bool,
) -> ManagedAgain {
    if disposition != Some(WindowDisposition::Managed) || gone {
        ManagedAgain::Ignored
    } else if initializing {
        ManagedAgain::Observed
    } else {
        ManagedAgain::Placed
    }
}

/// Puts a window onto a strip again that was minimized, hidden or floating, and gives
/// the size that a rule asks for it on the display, if it does. `gone` says that the
/// window does not answer any more.
pub fn window_managed_trigger<W: Fn(Entity) -> Option<IRect>>(
    entity: Entity,
    disposition: Option<WindowDisposition>,
    gone: bool,
    initializing: bool,
    insertion: Option<usize>,
    width_ratio: Option<Number>,
    display: &PaddedDisplay,
    previous: Option<PreviousManagedStrip>,
    strips: &mut Vec<VirtualStrip>,
    get_frame: &W,
) -> (managed: (ManagedAgain, Option<SharedSize>))
    requires
        positions::steady(*get_frame),
        width_ratio is Some ==> display.can_measure(),
    ensures
        managed.0 == answer_to_return(disposition, gone, initializing),
        managed.0 != ManagedAgain::Placed ==> strips_view(final(strips)@) == strips_view(
            old(strips)@,
        ),
        managed.0 == ManagedAgain::Placed ==> forall|frame: spec_fn(Entity) -> Option<IRect>|
            #[trigger]
            positions::answers(*get_frame, frame) ==> strips_view(final(strips)@) == after_return(
                strips_view(old(strips)@),
                entity,
                insertion,
                previous,
                frame,
            ),
        managed.1 == if managed.0 == ManagedAgain::Placed {
            defaults::asked_size(width_ratio, *display)
        } else {
            None
        },
{
    match disposition {
        Some(WindowDisposition::Managed) => {},
        _ => return (ManagedAgain::Ignored, None),
    }
    if gone {
        return (ManagedAgain::Ignored, None);
    }
    if initializing {
        return (ManagedAgain::Observed, None);
    }
    take_off(entity, strips);
    let ghost bare = strips_view(strips@);
    let insert_at = match (insertion, &previous) {
        (Some(index), _) => Some(index),
        (None, Some(previous)) => Some(previous.index),
        (None, None) => None,
    };
    let home = match previous {
        Some(previous) => find_previous(previous, strips),
        None => None,
    };
    let target = match home {
        Some(i) => Some(i),
        None => find_shown(strips),
    };
    if let Some(i) = target {
        assert(bare[i as int] == strips@[i as int]@);
        let at: usize = match insert_at {
            Some(index) => index,
            None => find_column_under(&strips[i].strip, entity, get_frame),
        };
        strips[i].strip.insert_at(at, entity);
        assert(strips_view(strips@) =~= with_columns(
            bare,
            i as int,
            layout::inserted(bare[i as int].columns, at as int, entity),
        ));
    }
    (ManagedAgain::Placed, rule_size(width_ratio, display))
}

/// The window is on the strips at most once in all.
pub open spec fn on_one_strip(strips: Seq<VirtualModel>, entity: Entity, home: int) -> bool {
    &&& 0 <= home < strips.len()
    &&& strip_with(entity)(strips[home])
    &&& forall|i: int| 0 <= i < strips.len() && i != home ==> !strip_with(entity)(
        #[trigger] strips[i],
    )
    &&& forall|i: int|
        0 <= i < strips.len() && i != home ==> (#[trigger] strips[i]).id != strips[home].id
            || strips[i].virtual_index != strips[home].virtual_index
}

/// A window that is minimized and comes back is where it was: each strip is as
/// before, if the window had a column of its own and no rule gives it another
/// place.
pub proof fn law_return_undoes_minimizing(
    strips: Seq<VirtualModel>,
    entity: Entity,
    home: int,
    frame: spec_fn(Entity) -> Option<IRect>,
)
    requires
        on_one_strip(strips, entity, home),
        strips[home].columns.len() <= usize::MAX,
        layout::index(strips[home].columns, entity) matches Some(i)
            && strips[home].columns[i] is Single,
        layout::index(
            layout::removed(strips[home].columns, entity),
            entity,
        ) is None,
    ensures
        after_return(
            strips.map_values(strip_without(entity)),
            entity,
            None,
            remembered(strips, entity),
            frame,
        ) == strips,
{
    let f = strip_without(entity);
    let p = strip_with(entity);
    let once = strips.map_values(f);
    let bare = once.map_values(f);
    let columns = strips[home].columns;
    let at = layout::index(columns, entity)->0;
    search::lemma_first_index_meaning(columns, layout::holder(entity));
    assert forall|i: int| home < i < strips.len() implies !p(#[trigger] strips[i]) by {}
    search::lemma_last_index(strips, p, home);
    let previous = remembered(strips, entity)->0;
    assert(bare =~= once);
    let q = is_previous(previous);
    assert(q(bare[home]));
    assert forall|i: int| 0 <= i < home implies !q(#[trigger] bare[i]) by {
        assert(bare[i].id == strips[i].id);
    }
    search::lemma_first_index(bare, q, home);
    assert(columns[at] == ColumnModel::Single(entity)) by {
        assert(columns[at].holds(entity));
    }
    assert(layout::inserted(columns.remove(at), at, entity) =~= columns);
    assert forall|i: int| 0 <= i < strips.len() && i != home implies bare[i] == #[trigger] strips[
        i] by {
        assert(!p(strips[i]));
    }
    assert(after_return(once, entity, None, remembered(strips, entity), frame) =~= strips);
}

} // verus!
