//! Which window has the focus, and what follows when it moves.
use vstd::prelude::*;

use crate::events::ProcessSerialNumber;
use crate::geometry::{quot, Entity, IRect};
use crate::layout;
use crate::layout::positions;
use crate::layout::positions::{ask, read};
use crate::layout::{ColumnModel, LayoutStrip, WorkspaceId};
use crate::observation;
use crate::observation::ProcessEntry;
use crate::search;
use crate::triggers::{Unmanaged, WindowDisposition};
use crate::windowset::WinID;
use crate::workspace;
use crate::workspace::{EntryModel, WorkspaceEntry};

verus! {

/// A window that is said to have the focus, and its application.
#[derive(Clone, Copy, Debug, PartialEq, Eq, Structural)]
pub struct FocusTarget {
    pub entity: Entity,
    /// The application is known.
    pub has_app: bool,
    /// The application is in front.
    pub frontmost: bool,
    /// The window that has the focus now, as far as the application says.
    pub app_focus: Option<WinID>,
    pub unmanaged: Option<Unmanaged>,
    pub disposition: Option<WindowDisposition>,
}

/// What else matters when a window gets the focus.
#[derive(Clone, Copy, Debug, PartialEq, Eq, Structural)]
pub struct FocusContext {
    /// The window that had the focus.
    pub focused: Option<WinID>,
    pub skip_reshuffle: bool,
    pub initializing: bool,
}

/// What follows when a window gets the focus.
#[derive(Clone, Copy, Debug, PartialEq, Eq, Structural)]
pub struct FocusEffects {
    /// The window is not known yet: the event is tried again later.
    pub retry: bool,
    /// The keys that are passed through are those of this window.
    pub passthrough: bool,
    /// The window becomes the one that commands act on.
    pub target: bool,
    /// The window is not hidden any more, and is treated this way again.
    pub restore: Option<WindowDisposition>,
    /// The event is sent again.
    pub resend: bool,
    /// The strip in whose column the window comes to the front.
    pub front: Option<usize>,
    /// The strip that is to be shown.
    pub activate: Option<Entity>,
    /// The space in whose history the window is recorded.
    pub record: Option<WorkspaceId>,
    /// The windows are laid out again, around this one.
    pub reshuffle: bool,
    /// The window is marked as the one with the focus.
    pub mark: bool,
}

/// Strips that hold a window.
pub open spec fn strip_with(entity: Entity) -> spec_fn(EntryModel) -> bool {
    |e: EntryModel| layout::index(e.columns, entity) is Some
}

/// Strips that are shown.
pub open spec fn is_shown() -> spec_fn(EntryModel) -> bool {
    |e: EntryModel| e.active
}

/// The event is not out of date: the application is in front, and does not say
/// that another of its windows has the focus.
pub open spec fn is_fresh(target: FocusTarget, window_id: WinID) -> bool {
    &&& target.has_app
    &&& target.frontmost
    &&& target.app_focus is None || target.app_focus == Some(window_id)
}

/// The window takes the focus: the event is not out of date, the window is not
/// hidden, and it is on a strip or not laid out at all.
pub open spec fn takes_focus(
    target: FocusTarget,
    window_id: WinID,
    strips: Seq<EntryModel>,
) -> bool {
    &&& is_fresh(target, window_id)
    &&& target.unmanaged != Some(Unmanaged::Hidden)
    &&& search::first_index(strips, strip_with(target.entity)) is Some || target.unmanaged is Some
}

/// The space in whose history a window is recorded: that of its strip, else the
/// one that is shown.
pub open spec fn recorded_space(entity: Entity, strips: Seq<EntryModel>) -> Option<WorkspaceId> {
    match search::first_index(strips, strip_with(entity)) {
        Some(i) => Some(strips[i].id),
        None => match search::last_index(strips, is_shown()) {
            Some(i) => Some(strips[i].id),
            None => None,
        },
    }
}

/// The effects are those of the event for a window that is known.
pub open spec fn are_effects(
    effects: FocusEffects,
    target: FocusTarget,
    window_id: WinID,
    strips: Seq<EntryModel>,
    context: FocusContext,
) -> bool {
    let fresh = is_fresh(target, window_id);
    let hidden = fresh && target.unmanaged == Some(Unmanaged::Hidden);
    let owner = search::first_index(strips, strip_with(target.entity));
    let takes = takes_focus(target, window_id, strips);
    let already = context.focused == Some(window_id);
    &&& !effects.retry
    &&& effects.passthrough == target.has_app
    &&& effects.target == fresh
    &&& effects.restore == if hidden {
        target.disposition
    } else {
        None
    }
    &&& effects.resend == hidden
    &&& effects.front is Some == (fresh && !hidden && owner is Some)
    &&& effects.front is Some ==> effects.front->0 == owner->0
    &&& effects.activate == if takes && owner is Some && !strips[owner->0].active {
        Some(strips[owner->0].entity)
    } else {
        None
    }
    &&& effects.record == if takes {
        recorded_space(target.entity, strips)
    } else {
        None
    }
    &&& effects.reshuffle == (takes && already && target.unmanaged is None
        && !context.skip_reshuffle && !context.initializing)
    &&& effects.mark == (takes && !already)
}

/// Nothing follows.
pub open spec fn no_effects() -> FocusEffects {
    FocusEffects {
        retry: false,
        passthrough: false,
        target: false,
        restore: None,
        resend: false,
        front: None,
        activate: None,
        record: None,
        reshuffle: false,
        mark: false,
    }
}

/// The strip that holds a window, and the one that is shown, of those up to an
/// index.
fn find_strips(entity: Entity, strips: &Vec<WorkspaceEntry>) -> (found: (Option<usize>, Option<usize>))
    ensures
        ({
            let view = workspace::entries_view(strips@);
            &&& found.0 is Some == search::first_index(view, strip_with(entity)) is Some
            &&& found.0 is Some ==> found.0->0 < strips.len() && search::first_index(
                view,
                strip_with(entity),
            ) == Some(found.0->0 as int)
            &&& found.1 is Some == search::last_index(view, is_shown()) is Some
            &&& found.1 is Some ==> found.1->0 < strips.len() && search::last_index(
                view,
                is_shown(),
            ) == Some(found.1->0 as int)
        }),
{
    let ghost view = workspace::entries_view(strips@);
    let ghost p = strip_with(entity);
    let ghost q = is_shown();
    let mut owner: Option<usize> = None;
    let mut shown: Option<usize> = None;
    let mut i: usize = 0;
    while i < strips.len()
        invariant
            i <= strips.len(),
            view == workspace::entries_view(strips@),
            p == strip_with(entity),
            q == is_shown(),
            owner is None ==> forall|j: int| 0 <= j < i ==> !p(#[trigger] view[j]),
            owner is Some ==> owner->0 < i && search::is_first(view, p, owner->0 as int),
            shown is None ==> forall|j: int| 0 <= j < i ==> !q(#[trigger] view[j]),
            shown is Some ==> shown->0 < i && q(view[shown->0 as int]) && forall|j: int|
                shown->0 < j < i ==> !q(#[trigger] view[j]),
        decreases strips.len() - i,
    {
        assert(view[i as int] == strips@[i as int]@);
        if strips[i].active {
            shown = Some(i);
        }
        if owner.is_none() && strips[i].strip.index_of(entity).is_ok() {
            owner = Some(i);
        }
        i = i + 1;
    }
    proof {
        match owner {
            Some(k) => search::lemma_first_index(view, p, k as int),
            None => search::lemma_no_first_index(view, p),
        }
        match shown {
            Some(k) => search::lemma_last_index(view, q, k as int),
            None => search::lemma_no_last_index(view, q),
        }
    }
    (owner, shown)
}

/// What follows when a window is said to have the focus. An unknown window is
/// tried again; an event that is out of date only updates the keys that are
/// passed through; a hidden window is shown first.
pub fn window_focused_trigger(
    window_id: WinID,
    target: Option<FocusTarget>,
    strips: &Vec<WorkspaceEntry>,
    context: FocusContext,
) -> (effects: FocusEffects)
    ensures
        match target {
            None => effects == (FocusEffects { retry: true, ..no_effects() }),
            Some(target) => are_effects(
                effects,
                target,
                window_id,
                workspace::entries_view(strips@),
                context,
            ),
        },
{
    let mut effects = FocusEffects {
        retry: false,
        passthrough: false,
        target: false,
        restore: None,
        resend: false,
        front: None,
        activate: None,
        record: None,
        reshuffle: false,
        mark: false,
    };
    let target = match target {
        Some(target) => target,
        None => {
            effects.retry = true;
            return effects;
        },
    };
    if !target.has_app {
        return effects;
    }
    effects.passthrough = true;
    let already_focused = match context.focused {
        Some(id) => id == window_id,
        None => false,
    };
    if !target.frontmost {
        return effects;
    }
    if let Some(id) = target.app_focus {
        if id != window_id {
            return effects;
        }
    }
    effects.target = true;
    if let Some(Unmanaged::Hidden) = target.unmanaged {
        effects.restore = target.disposition;
        effects.resend = true;
        return effects;
    }
    let (owner, shown) = find_strips(target.entity, strips);
    effects.front = owner;
    if owner.is_none() && target.unmanaged.is_none() {
        return effects;
    }
    if let Some(i) = owner {
        assert(workspace::entries_view(strips@)[i as int] == strips@[i as int]@);
        if !strips[i].active {
            effects.activate = Some(strips[i].entity);
        }
        effects.record = Some(strips[i].strip.id());
    } else if let Some(i) = shown {
        assert(workspace::entries_view(strips@)[i as int] == strips@[i as int]@);
        effects.record = Some(strips[i].strip.id());
    }
    if already_focused {
        if target.unmanaged.is_none() && !context.skip_reshuffle && !context.initializing {
            effects.reshuffle = true;
        }
        return effects;
    }
    effects.mark = true;
    effects
}

/// An event that is out of date moves no focus: it marks no window, shows no
/// strip and is not recorded.
pub proof fn law_stale_focus_is_ignored(
    effects: FocusEffects,
    target: FocusTarget,
    window_id: WinID,
    strips: Seq<EntryModel>,
    context: FocusContext,
)
    requires
        are_effects(effects, target, window_id, strips, context),
        !target.frontmost || (target.app_focus is Some && target.app_focus != Some(window_id)),
    ensures
        !effects.mark && !effects.target && !effects.reshuffle && !effects.resend,
        effects.activate is None && effects.record is None && effects.front is None,
{
}

/// Where a window gets the focus, the strip that it is on is shown.
pub proof fn law_focus_shows_the_strip(
    effects: FocusEffects,
    target: FocusTarget,
    window_id: WinID,
    strips: Seq<EntryModel>,
    context: FocusContext,
    owner: int,
)
    requires
        are_effects(effects, target, window_id, strips, context),
        effects.mark,
        search::first_index(strips, strip_with(target.entity)) == Some(owner),
    ensures
        strips[owner].active || effects.activate == Some(strips[owner].entity),
        effects.record == Some(strips[owner].id),
{
}

// ---------------------------------------------------------------------------
// Giving the focus away
// ---------------------------------------------------------------------------
/// The middle of a frame, from left to right.
pub open spec fn middle(frame: IRect) -> int {
    quot(frame.min.x + frame.max.x, 2)
}

/// How far the middle of a frame is from a place.
pub open spec fn distance(frame: IRect, from: int) -> int {
    if middle(frame) >= from {
        middle(frame) - from
    } else {
        from - middle(frame)
    }
}

/// The windows that may get the focus: the topmost of each column but one.
pub open spec fn heirs(columns: Seq<ColumnModel>, entity: Entity) -> Seq<Entity> {
    layout::tops(columns).filter(layout::is_not(entity))
}

/// `k` is the first of the windows with a frame whose middle is nearest.
pub open spec fn is_nearest(
    windows: Seq<Entity>,
    frame: spec_fn(Entity) -> Option<IRect>,
    from: int,
    k: int,
) -> bool {
    &&& 0 <= k < windows.len()
    &&& frame(windows[k]) is Some
    &&& forall|j: int|
        0 <= j < windows.len() && frame(#[trigger] windows[j]) is Some ==> distance(
            frame(windows[k])->0,
            from,
        ) <= distance(frame(windows[j])->0, from)
    &&& forall|j: int|
        0 <= j < k && frame(#[trigger] windows[j]) is Some ==> distance(
            frame(windows[k])->0,
            from,
        ) < distance(frame(windows[j])->0, from)
}

/// `heir` is the window that gets the focus, of those that may: the one whose
/// middle is nearest, or just the first if none has a frame.
pub open spec fn is_heir(
    heirs: Seq<Entity>,
    frame: spec_fn(Entity) -> Option<IRect>,
    from: int,
    heir: Option<Entity>,
) -> bool {
    match heir {
        None => heirs.len() == 0,
        Some(window) => heirs.len() > 0 && if exists|j: int|
            0 <= j < heirs.len() && frame(#[trigger] heirs[j]) is Some {
            exists|k: int| #[trigger] is_nearest(heirs, frame, from, k) && window == heirs[k]
        } else {
            window == heirs[0]
        },
    }
}

/// The middle of a frame, from left to right.
pub(crate) fn middle_of(frame: &IRect) -> (x: i64)
    ensures
        x == middle(*frame),
        i32::MIN <= x <= i32::MAX,
{
    let sum: i64 = frame.min.x as i64 + frame.max.x as i64;
    if sum >= 0 {
        sum / 2
    } else {
        -((-sum) / 2)
    }
}

/// The window that gets the focus of another, which is about to go.
fn find_heir<W: Fn(Entity) -> Option<IRect>>(heirs: &Vec<Entity>, viewport: &IRect, moving_frame: &W) -> (
heir: Option<Entity>)
    requires
        positions::steady(*moving_frame),
    ensures
        forall|frame: spec_fn(Entity) -> Option<IRect>| #[trigger]
            positions::answers(*moving_frame, frame) ==> is_heir(
                heirs@,
                frame,
                middle(*viewport),
                heir,
            ),
{
    let table = ask(heirs, moving_frame);
    let heir = heir_of(heirs, viewport, &table);
    proof {
        assert forall|frame: spec_fn(Entity) -> Option<IRect>| #[trigger]
            positions::answers(*moving_frame, frame) implies is_heir(
            heirs@,
            frame,
            middle(*viewport),
            heir,
        ) by {
            lemma_heir_is_local(
                heirs@,
                positions::noted(table@),
                frame,
                middle(*viewport),
                heir,
            );
        }
    }
    heir
}

/// Frames that agree on those who may get the focus give it to the same one.
proof fn lemma_heir_is_local(
    heirs: Seq<Entity>,
    f: spec_fn(Entity) -> Option<IRect>,
    g: spec_fn(Entity) -> Option<IRect>,
    from: int,
    heir: Option<Entity>,
)
    requires
        positions::agree(heirs, f, g),
        is_heir(heirs, f, from, heir),
    ensures
        is_heir(heirs, g, from, heir),
{
    assert forall|j: int| 0 <= j < heirs.len() implies f(#[trigger] heirs[j]) == g(heirs[j]) by {
        assert(heirs.contains(heirs[j]));
    }
    if heirs.len() > 0 {
        if exists|j: int| 0 <= j < heirs.len() && f(#[trigger] heirs[j]) is Some {
            let k = choose|k: int| #[trigger] is_nearest(heirs, f, from, k) && heir->0 == heirs[k];
            assert(is_nearest(heirs, g, from, k));
            assert(g(heirs[k]) is Some);
        } else {
            assert forall|j: int| 0 <= j < heirs.len() implies g(#[trigger] heirs[j]) is None by {
                assert(f(heirs[j]) == g(heirs[j]));
            }
        }
    }
}

/// The window that gets the focus of another, where the table holds the frames.
fn heir_of(heirs: &Vec<Entity>, viewport: &IRect, table: &Vec<(Entity, Option<IRect>)>) -> (heir:
    Option<Entity>)
    ensures
        is_heir(heirs@, positions::noted(table@), middle(*viewport), heir),
{
    let ghost frame = positions::noted(table@);
    let center: i64 = middle_of(viewport);
    let mut best: Option<usize> = None;
    let mut least: i64 = 0;
    let mut i: usize = 0;
    while i < heirs.len()
        invariant
            i <= heirs.len(),
            frame == positions::noted(table@),
            center == middle(*viewport),
            i32::MIN <= center <= i32::MAX,
            best is None ==> forall|j: int| 0 <= j < i ==> frame(#[trigger] heirs@[j]) is None,
            best is Some ==> {
                let k = best->0;
                &&& k < i
                &&& is_nearest(heirs@.take(i as int), frame, center as int, k as int)
                &&& least == distance(frame(heirs@[k as int])->0, center as int)
            },
        decreases heirs.len() - i,
    {
        let found = read(table, heirs[i]);
        let ghost before = best;
        if let Some(rect) = found {
            let x: i64 = middle_of(&rect);
            let gap: i64 = if x >= center {
                x - center
            } else {
                center - x
            };
            if best.is_none() || gap < least {
                best = Some(i);
                least = gap;
            }
        }
        proof {
            let t = heirs@.take(i + 1);
            let s = heirs@.take(i as int);
            assert(t == s.push(heirs@[i as int]));
            assert forall|j: int| 0 <= j < i implies #[trigger] t[j] == s[j] by {}
            if best is Some {
                let k = best->0 as int;
                assert(t[k] == heirs@[k]);
                if before is None {
                    assert forall|j: int| 0 <= j < i implies frame(#[trigger] t[j]) is None by {
                        assert(t[j] == heirs@[j]);
                    }
                } else {
                    let b = before->0 as int;
                    assert(s[b] == heirs@[b]);
                    assert forall|j: int| 0 <= j < t.len() && frame(#[trigger] t[j]) is Some
                        implies distance(frame(t[k])->0, center as int) <= distance(
                        frame(t[j])->0,
                        center as int,
                    ) by {
                        if j < i {
                            assert(t[j] == s[j]);
                        }
                    }
                    assert forall|j: int| 0 <= j < k && frame(#[trigger] t[j]) is Some
                        implies distance(frame(t[k])->0, center as int) < distance(
                        frame(t[j])->0,
                        center as int,
                    ) by {
                        assert(t[j] == s[j]);
                    }
                }
                assert(is_nearest(t, frame, center as int, k));
            }
        }
        i = i + 1;
    }
    assert(heirs@.take(i as int) == heirs@);
    match best {
        Some(k) => {
            assert(is_nearest(heirs@, frame, center as int, k as int));
            assert(frame(heirs@[k as int]) is Some);
            Some(heirs[k])
        },
        None => if heirs.len() > 0 {
            Some(heirs[0])
        } else {
            None
        },
    }
}

/// `neighbour` gets the focus of a window that is about to go.
pub open spec fn inherits(
    neighbour: Option<Entity>,
    columns: Seq<ColumnModel>,
    entity: Entity,
    tabbed: bool,
    frame: spec_fn(Entity) -> Option<IRect>,
    from: int,
    known: Seq<Entity>,
) -> bool {
    if tabbed {
        neighbour is None
    } else {
        exists|heir: Option<Entity>| #[trigger]
            is_heir(heirs(columns, entity), frame, from, heir) && neighbour == if heir is Some
                && known.contains(heir->0) {
                heir
            } else {
                None
            }
    }
}

/// The neighbour that gets the focus of a window which is about to go, if the
/// neighbour is known: the one nearest to the middle of the display. A window
/// that shares a tab with others keeps the focus there.
pub fn give_away_focus<W: Fn(Entity) -> Option<IRect>>(
    entity: Entity,
    tabbed: bool,
    active_strip: &LayoutStrip,
    viewport: &IRect,
    moving_frame: &W,
    known: &Vec<Entity>,
) -> (neighbour: Option<Entity>)
    requires
        positions::steady(*moving_frame),
    ensures
        forall|frame: spec_fn(Entity) -> Option<IRect>| #[trigger]
            positions::answers(*moving_frame, frame) ==> inherits(
                neighbour,
                active_strip@,
                entity,
                tabbed,
                frame,
                middle(*viewport),
                known@,
            ),
{
    if tabbed {
        return None;
    }
    let candidates = layout::others(&active_strip.all_columns(), entity);
    let heir = find_heir(&candidates, viewport, moving_frame);
    assert(candidates@ == heirs(active_strip@, entity));
    match heir {
        Some(window) => if crate::reconcile::contains(known, window) {
            heir
        } else {
            None
        },
        None => None,
    }
}

/// Only one window can be the nearest: who gets the focus is settled.
pub proof fn law_heir_is_unique(
    heirs: Seq<Entity>,
    frame: spec_fn(Entity) -> Option<IRect>,
    from: int,
    a: Option<Entity>,
    b: Option<Entity>,
)
    requires
        is_heir(heirs, frame, from, a),
        is_heir(heirs, frame, from, b),
    ensures
        a == b,
{
    if heirs.len() > 0 && exists|j: int|
        0 <= j < heirs.len() && frame(#[trigger] heirs[j]) is Some {
        let k = choose|k: int| #[trigger] is_nearest(heirs, frame, from, k) && a->0 == heirs[k];
        let l = choose|l: int| #[trigger] is_nearest(heirs, frame, from, l) && b->0 == heirs[l];
        assert(is_nearest(heirs, frame, from, k) && is_nearest(heirs, frame, from, l));
        if k < l {
            assert(frame(heirs[k]) is Some);
        } else if l < k {
            assert(frame(heirs[l]) is Some);
        }
    }
}

/// A window never gives the focus to itself.
pub proof fn law_focus_goes_to_another(
    columns: Seq<ColumnModel>,
    entity: Entity,
    frame: spec_fn(Entity) -> Option<IRect>,
    from: int,
    heir: Option<Entity>,
)
    requires
        is_heir(heirs(columns, entity), frame, from, heir),
    ensures
        heir != Some(entity),
{
    let windows = heirs(columns, entity);
    let p = layout::is_not(entity);
    assert forall|j: int| 0 <= j < windows.len() implies #[trigger] windows[j] != entity by {
        layout::tops(columns).lemma_filter_pred(p, j);
    }
}

/// The first application of a process, if it has one.
pub open spec fn application_of(psn: ProcessSerialNumber, processes: Seq<ProcessEntry>) -> Option<
    Entity,
> {
    match search::first_where(processes, observation::has_psn(psn)) {
        Some(entry) => if entry.applications.len() > 0 {
            Some(entry.applications[0])
        } else {
            None
        },
        None => None,
    }
}

// ---------------------------------------------------------------------------
// Applications
// ---------------------------------------------------------------------------
/// The application of a process that comes to the front, if the process is
/// known and has one.
pub fn front_application(psn: ProcessSerialNumber, processes: &Vec<ProcessEntry>) -> (application:
    Option<Entity>)
    ensures
        application == application_of(psn, processes@),
{
    let ghost p = observation::has_psn(psn);
    let mut i: usize = 0;
    while i < processes.len()
        invariant
            i <= processes.len(),
            p == observation::has_psn(psn),
            forall|j: int| 0 <= j < i ==> !p(#[trigger] processes@[j]),
        decreases processes.len() - i,
    {
        if processes[i].psn == psn {
            proof {
                search::lemma_first_index(processes@, p, i as int);
            }
            let applications = &processes[i].applications;
            return if applications.len() > 0 {
                Some(applications[0])
            } else {
                None
            };
        }
        i = i + 1;
    }
    proof {
        search::lemma_no_first_index(processes@, p);
    }
    None
}

/// What follows when an application has come to the front.
#[derive(Clone, Copy, Debug, PartialEq, Eq, Structural)]
pub enum FrontSwitch {
    /// The window gets the focus. If the pointer is over another one, it was not
    /// the mouse that brought it there, so it is brought into view.
    Focus { window_id: WinID, bring_into_view: bool },
    /// The application does not say which window has the focus: it is asked
    /// again later.
    Retry,
}

/// What follows when another application comes to the front.
pub open spec fn switch_to(focused: Option<WinID>, under_pointer: Option<WinID>) -> FrontSwitch {
    match focused {
        Some(window_id) => FrontSwitch::Focus {
            window_id,
            bring_into_view: under_pointer is Some && under_pointer != Some(window_id),
        },
        None => FrontSwitch::Retry,
    }
}

/// What follows when an application has come to the front, from the window that
/// it says has the focus and the one under the pointer.
pub fn front_switched_trigger(focused: Option<WinID>, under_pointer: Option<WinID>) -> (switch:
    FrontSwitch)
    ensures
        switch == switch_to(focused, under_pointer),
{
    match focused {
        Some(window_id) => FrontSwitch::Focus {
            window_id,
            bring_into_view: match under_pointer {
                Some(other) => other != window_id,
                None => false,
            },
        },
        None => FrontSwitch::Retry,
    }
}

// ---------------------------------------------------------------------------
// Dimming
// ---------------------------------------------------------------------------
/// A window and how it is treated.
#[derive(Clone, Copy, Debug, PartialEq, Eq, Structural)]
pub struct DimmableWindow {
    pub id: WinID,
    pub unmanaged: Option<Unmanaged>,
    pub focused: bool,
}

/// The window is one that is dimmed while it does not have the focus.
pub open spec fn dims(unmanaged: Option<Unmanaged>) -> bool {
    unmanaged is None || unmanaged == Some(Unmanaged::Floating)
}

/// The window that has the focus and would be dimmed without it.
pub open spec fn is_lit() -> spec_fn(DimmableWindow) -> bool {
    |w: DimmableWindow| w.focused
}

/// The window that is not dimmed because it has the focus.
pub open spec fn lit(windows: Seq<DimmableWindow>) -> Option<WinID> {
    match search::first_where(windows, is_lit()) {
        Some(w) => if dims(w.unmanaged) {
            Some(w.id)
        } else {
            None
        },
        None => None,
    }
}

/// The windows that are to be dimmed.
pub open spec fn to_dim(lit: Option<WinID>) -> spec_fn(DimmableWindow) -> Option<WinID> {
    |w: DimmableWindow|
        if dims(w.unmanaged) && lit != Some(w.id) {
            Some(w.id)
        } else {
            None
        }
}

fn can_dim(unmanaged: Option<Unmanaged>) -> (dim: bool)
    ensures
        dim == dims(unmanaged),
{
    match unmanaged {
        None => true,
        Some(Unmanaged::Floating) => true,
        _ => false,
    }
}

fn find_lit(windows: &Vec<DimmableWindow>) -> (found: Option<WinID>)
    ensures
        found == lit(windows@),
{
    let ghost p = is_lit();
    let mut i: usize = 0;
    while i < windows.len()
        invariant
            i <= windows.len(),
            p == is_lit(),
            forall|j: int| 0 <= j < i ==> !p(#[trigger] windows@[j]),
        decreases windows.len() - i,
    {
        if windows[i].focused {
            proof {
                search::lemma_first_index(windows@, p, i as int);
            }
            return if can_dim(windows[i].unmanaged) {
                Some(windows[i].id)
            } else {
                None
            };
        }
        i = i + 1;
    }
    proof {
        search::lemma_no_first_index(windows@, p);
    }
    None
}

/// The windows that are dimmed anew when the theme changes.
pub open spec fn dimmed_again(was_dark: bool, now_dark: bool, windows: Seq<DimmableWindow>) -> Seq<
    WinID,
> {
    if was_dark == now_dark {
        Seq::empty()
    } else {
        windows.filter_map(to_dim(lit(windows)))
    }
}

/// The windows that are dimmed anew when the system changes between light and
/// dark: all but the one with the focus. Without a change there are none.
pub fn theme_change_trigger(is_dark: &mut bool, now_dark: bool, windows: &Vec<DimmableWindow>) -> (
dimmed: Vec<WinID>)
    ensures
        *final(is_dark) == now_dark,
        dimmed@ == dimmed_again(*old(is_dark), now_dark, windows@),
{
    let mut dimmed: Vec<WinID> = Vec::new();
    if *is_dark == now_dark {
        return dimmed;
    }
    *is_dark = now_dark;
    let focused = find_lit(windows);
    let ghost f = to_dim(lit(windows@));
    let mut i: usize = 0;
    while i < windows.len()
        invariant
            i <= windows.len(),
            focused == lit(windows@),
            f == to_dim(lit(windows@)),
            dimmed@ == windows@.take(i as int).filter_map(f),
        decreases windows.len() - i,
    {
        proof {
            windows@.lemma_filter_map_take_succ(f, i as int);
        }
        let is_lit = match focused {
            Some(id) => id == windows[i].id,
            None => false,
        };
        if can_dim(windows[i].unmanaged) && !is_lit {
            dimmed.push(windows[i].id);
        }
        i = i + 1;
    }
    assert(windows@.take(i as int) == windows@);
    dimmed
}

} // verus!
