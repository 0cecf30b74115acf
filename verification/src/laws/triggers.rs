//! What follows when a window is focused, minimized, hidden, closed, floated, returned or
//! resized.
use vstd::prelude::*;

use crate::clock::Instant;
use crate::events::{Event, ProcessSerialNumber};
use crate::floating;
use crate::geometry::{Entity, IRect, IVec2};
use crate::laws::arrivals;
use crate::laws::places;
use crate::laws::strips as on_strip;
use crate::layout;
use crate::layout::ColumnModel;
use crate::number::Number;
use crate::observation::{Detachment, ProcessEntry};
use crate::search;
use crate::triggers::defaults;
use crate::triggers::defaults::{DefaultStep, PaddedDisplay, WindowRules};
use crate::triggers::focus;
use crate::triggers::focus::{
    DimmableWindow, FocusContext, FocusEffects, FocusTarget, FrontSwitch,
};
use crate::triggers::managing;
use crate::triggers::managing::{
    ManagedAgain, OwningApp, PreviousManagedStrip, Reframing, ReportedWindow, UnmanagedWindow,
    VirtualModel,
};
use crate::triggers::messages;
use crate::triggers::messages::{
    ApplicationWindows, NewWindow, Newcomer, ScrollableModel, WindowMark,
};
use crate::triggers::resize;
use crate::triggers::{Unmanaged, WindowDisposition};
use crate::windowset::WinID;
use crate::workspace::EntryModel;

verus! {

// ---------------------------------------------------------------------------
// Focus
// ---------------------------------------------------------------------------
/// The first strip that the window is on.
pub open spec fn is_home(strips: Seq<EntryModel>, entity: Entity, s: int, i: int, p: int) -> bool {
    &&& 0 <= s < strips.len()
    &&& places::only_at(strips[s].columns, entity, i, p)
    &&& forall|t: int| 0 <= t < s ==> places::is_absent((#[trigger] strips[t]).columns, entity)
}

/// The window is on no strip.
pub open spec fn is_homeless(strips: Seq<EntryModel>, entity: Entity) -> bool {
    forall|t: int|
        0 <= t < strips.len() ==> places::is_absent((#[trigger] strips[t]).columns, entity)
}

/// The application of a window is in front and has this window in focus, or none.
pub open spec fn is_up_to_date(target: FocusTarget, window_id: WinID) -> bool {
    &&& target.has_app
    &&& target.frontmost
    &&& target.app_focus is Some ==> target.app_focus->0 == window_id
}

/// A window finds the strip that it is on.
proof fn lemma_home(strips: Seq<EntryModel>, entity: Entity, s: int, i: int, p: int)
    requires
        is_home(strips, entity, s, i, p),
    ensures
        search::first_index(strips, focus::strip_with(entity)) == Some(s),
{
    let f = focus::strip_with(entity);
    places::law_window_is_found_where_it_stands(strips[s].columns, entity, i, p);
    assert forall|t: int| 0 <= t < s implies !f(#[trigger] strips[t]) by {
        places::law_absent_window_is_not_found(strips[t].columns, entity);
    }
    search::lemma_first_index(strips, f, s);
}

/// A window on no strip finds none.
proof fn lemma_homeless(strips: Seq<EntryModel>, entity: Entity)
    requires
        is_homeless(strips, entity),
    ensures
        search::first_index(strips, focus::strip_with(entity)) is None,
{
    let f = focus::strip_with(entity);
    assert forall|t: int| 0 <= t < strips.len() implies !f(#[trigger] strips[t]) by {
        places::law_absent_window_is_not_found(strips[t].columns, entity);
    }
    search::lemma_no_first_index(strips, f);
}

/// A window on a strip that gets the focus is marked unless it had it; its strip comes to
/// the front, is shown if it was not, and the window is recorded there. The strip is laid
/// out anew where the window had the focus already.
pub proof fn law_window_on_a_strip_gets_the_focus(
    effects: FocusEffects,
    target: FocusTarget,
    window_id: WinID,
    strips: Seq<EntryModel>,
    context: FocusContext,
    s: int,
    i: int,
    p: int,
)
    requires
        focus::are_effects(effects, target, window_id, strips, context),
        is_up_to_date(target, window_id),
        target.unmanaged != Some(Unmanaged::Hidden),
        is_home(strips, target.entity, s, i, p),
        s <= usize::MAX,
    ensures
        effects.mark <==> context.focused != Some(window_id),
        effects.target,
        effects.passthrough,
        !effects.retry && !effects.resend && effects.restore is None,
        effects.front == Some(s as usize),
        strips[s].active ==> effects.activate is None,
        !strips[s].active ==> effects.activate == Some(strips[s].entity),
        effects.record == Some(strips[s].id),
        effects.reshuffle <==> context.focused == Some(window_id) && target.unmanaged is None
            && !context.skip_reshuffle && !context.initializing,
{
    lemma_home(strips, target.entity, s, i, p);
}

/// A hidden window that gets the focus is restored to what it was, and the event is sent
/// again; nothing else follows yet.
pub proof fn law_hidden_window_comes_back_first(
    effects: FocusEffects,
    target: FocusTarget,
    window_id: WinID,
    strips: Seq<EntryModel>,
    context: FocusContext,
)
    requires
        focus::are_effects(effects, target, window_id, strips, context),
        is_up_to_date(target, window_id),
        target.unmanaged == Some(Unmanaged::Hidden),
    ensures
        effects.restore == target.disposition,
        effects.resend,
        !effects.mark && !effects.reshuffle && !effects.retry,
        effects.front is None && effects.activate is None && effects.record is None,
{
}

/// A window that floats gets the focus though it is on no strip, and is recorded for the
/// strip that is shown; a window that is to be laid out waits for its place.
pub proof fn law_window_without_a_strip(
    effects: FocusEffects,
    target: FocusTarget,
    window_id: WinID,
    strips: Seq<EntryModel>,
    context: FocusContext,
    s: int,
)
    requires
        focus::are_effects(effects, target, window_id, strips, context),
        is_up_to_date(target, window_id),
        target.unmanaged != Some(Unmanaged::Hidden),
        is_homeless(strips, target.entity),
        0 <= s < strips.len(),
        strips[s].active,
        forall|t: int| s < t < strips.len() ==> !(#[trigger] strips[t]).active,
    ensures
        effects.target,
        effects.front is None && effects.activate is None,
        target.unmanaged is Some ==> effects.record == Some(strips[s].id) && (effects.mark
            <==> context.focused != Some(window_id)),
        target.unmanaged is None ==> effects.record is None && !effects.mark && !effects.reshuffle,
{
    lemma_homeless(strips, target.entity);
    search::lemma_last_index(strips, focus::is_shown(), s);
}

/// The middle of a frame is as far from its left edge as from its right one, but for a
/// point.
pub proof fn law_middle_is_in_the_middle(frame: IRect)
    ensures
        -1 <= (focus::middle(frame) - frame.min.x) - (frame.max.x - focus::middle(frame)) <= 1,
{
}

/// The window that gets the focus of one that goes is the topmost of some column, and no
/// other topmost window is nearer to the middle of the viewport.
pub proof fn law_nearest_window_gets_the_focus(
    neighbour: Entity,
    columns: Seq<ColumnModel>,
    entity: Entity,
    frame: spec_fn(Entity) -> Option<IRect>,
    from: int,
    known: Seq<Entity>,
    j: int,
)
    requires
        focus::inherits(Some(neighbour), columns, entity, false, frame, from, known),
        places::all_filled(columns),
        0 <= j < columns.len(),
        columns[j].windows()[0] != entity,
        frame(columns[j].windows()[0]) is Some,
    ensures
        neighbour != entity,
        known.contains(neighbour),
        exists|i: int| 0 <= i < columns.len() && (#[trigger] columns[i]).windows()[0] == neighbour,
        frame(neighbour) is Some,
        ({
            let mine = focus::middle(frame(neighbour)->0) - from;
            let its = focus::middle(frame(columns[j].windows()[0])->0) - from;
            (if mine < 0 {
                -mine
            } else {
                mine
            }) <= if its < 0 {
                -its
            } else {
                its
            }
        }),
{
    let heir = Some(neighbour);
    let tops = layout::tops(columns);
    let heirs = focus::heirs(columns, entity);
    let f = layout::is_not(entity);
    assert(focus::is_heir(heirs, frame, from, heir));
    on_strip::law_tops_are_the_first_of_each_column(columns);
    assert(tops[j] == columns[j].windows()[0]);
    tops.lemma_filter_contains(f, j);
    let m = choose|m: int| 0 <= m < heirs.len() && heirs[m] == tops[j];
    assert(frame(heirs[m]) is Some);
    let k = choose|k: int| #[trigger] focus::is_nearest(heirs, frame, from, k) && neighbour
        == heirs[k];
    search::lemma_filter_from(tops, f, k);
    tops.lemma_filter_pred(f, k);
    let i = choose|i: int| 0 <= i < tops.len() && tops[i] == neighbour;
    assert(columns[i].windows()[0] == neighbour);
}

/// A window of several tabs gives the focus to none, and so does the only one.
pub proof fn law_tab_keeps_the_focus_to_itself(
    neighbour: Option<Entity>,
    columns: Seq<ColumnModel>,
    entity: Entity,
    tabbed: bool,
    frame: spec_fn(Entity) -> Option<IRect>,
    from: int,
    known: Seq<Entity>,
)
    requires
        focus::inherits(neighbour, columns, entity, tabbed, frame, from, known),
        tabbed || columns == seq![ColumnModel::Single(entity)],
    ensures
        neighbour is None,
{
    if !tabbed {
        assert(columns[0].windows()[0] == entity);
        on_strip::law_tops_are_the_first_of_each_column(columns);
        let tops = layout::tops(columns);
        let heirs = focus::heirs(columns, entity);
        if heirs.len() > 0 {
            search::lemma_filter_from(tops, layout::is_not(entity), 0);
            tops.lemma_filter_pred(layout::is_not(entity), 0);
        }
    }
}

/// The application of a process is its first one.
pub proof fn law_process_brings_its_application(
    psn: ProcessSerialNumber,
    processes: Seq<ProcessEntry>,
    k: int,
)
    requires
        0 <= k < processes.len(),
        processes[k].psn == psn,
        forall|j: int| 0 <= j < k ==> (#[trigger] processes[j]).psn != psn,
    ensures
        processes[k].applications@.len() > 0 ==> focus::application_of(psn, processes) == Some(
            processes[k].applications@[0],
        ),
        processes[k].applications@.len() == 0 ==> focus::application_of(psn, processes) is None,
{
    search::lemma_first_index(processes, crate::observation::has_psn(psn), k);
}

/// The focused window of the application in front is brought into view, unless it is
/// under the pointer or nothing is; without a focused window it is asked again.
pub proof fn law_front_window_is_brought_into_view(window: WinID, other: WinID)
    requires
        window != other,
    ensures
        focus::switch_to(Some(window), Some(other)) == (FrontSwitch::Focus {
            window_id: window,
            bring_into_view: true,
        }),
        focus::switch_to(Some(window), Some(window)) == (FrontSwitch::Focus {
            window_id: window,
            bring_into_view: false,
        }),
        focus::switch_to(Some(window), None) == (FrontSwitch::Focus {
            window_id: window,
            bring_into_view: false,
        }),
        focus::switch_to(None, Some(other)) == FrontSwitch::Retry,
{
}

/// When the theme changes each window that is laid out or floats is dimmed anew, but for
/// the one with the focus; without a change none is.
pub proof fn law_theme_dims_all_but_the_focused(
    windows: Seq<DimmableWindow>,
    dark: bool,
    k: int,
    id: WinID,
)
    requires
        0 <= k < windows.len(),
        windows[k].focused,
        forall|j: int| 0 <= j < windows.len() && j != k ==> !(#[trigger] windows[j]).focused,
        windows[k].unmanaged is None || windows[k].unmanaged == Some(Unmanaged::Floating),
    ensures
        focus::dimmed_again(dark, dark, windows).len() == 0,
        focus::dimmed_again(dark, !dark, windows).contains(id) <==> id != windows[k].id && (exists|
            j: int,
        |
            0 <= j < windows.len() && (#[trigger] windows[j]).id == id && (windows[j].unmanaged
                is None || windows[j].unmanaged == Some(Unmanaged::Floating))),
{
    search::lemma_first_index(windows, focus::is_lit(), k);
    let f = focus::to_dim(focus::lit(windows));
    let dimmed = windows.filter_map(f);
    if dimmed.contains(id) {
        let n = choose|n: int| 0 <= n < dimmed.len() && dimmed[n] == id;
        let j = search::lemma_filter_map_from(windows, f, n);
        assert(windows[j].id == id);
    }
    if id != windows[k].id && (exists|j: int|
        0 <= j < windows.len() && (#[trigger] windows[j]).id == id && (windows[j].unmanaged is None
            || windows[j].unmanaged == Some(Unmanaged::Floating))) {
        let j = choose|j: int|
            0 <= j < windows.len() && (#[trigger] windows[j]).id == id && (windows[j].unmanaged
                is None || windows[j].unmanaged == Some(Unmanaged::Floating));
        let n = search::lemma_filter_map_to(windows, f, j);
        assert(dimmed[n] == id);
    }
}

// ---------------------------------------------------------------------------
// Marks
// ---------------------------------------------------------------------------
/// A window that is minimized gets that mark, and one that comes back the mark of its
/// kind, if it was minimized; one that is not known gets none.
pub proof fn law_minimized_window_is_marked(
    id: WinID,
    windows: Seq<WindowMark>,
    applications: Seq<ApplicationWindows>,
    k: int,
)
    requires
        0 <= k < windows.len(),
        windows[k].id == id,
        forall|j: int| 0 <= j < k ==> (#[trigger] windows[j]).id != id,
    ensures
        messages::mark_changes(
            Event::WindowMinimized { window_id: id },
            windows,
            applications,
        ) == seq![(windows[k].entity, Some(Unmanaged::Minimized))],
        ({
            let changes = messages::mark_changes(
                Event::WindowDeminimized { window_id: id },
                windows,
                applications,
            );
            let back = windows[k].unmanaged == Some(Unmanaged::Minimized);
            &&& back && windows[k].disposition == Some(WindowDisposition::Managed) ==> changes
                == seq![(windows[k].entity, None::<Unmanaged>)]
            &&& back && windows[k].disposition == Some(WindowDisposition::Floating) ==> changes
                == seq![(windows[k].entity, Some(Unmanaged::Floating))]
            &&& back && windows[k].disposition == Some(WindowDisposition::Passthrough) ==> changes
                == seq![(windows[k].entity, Some(Unmanaged::Passthrough))]
            &&& !back ==> changes.len() == 0
        }),
{
    search::lemma_first_index(windows, messages::has_id(id), k);
}

/// An application that is hidden takes with it just those of its windows that are laid
/// out, and when it is shown just those come back that went with it.
pub proof fn law_application_takes_its_windows(
    pid: i32,
    windows: Seq<WindowMark>,
    applications: Seq<ApplicationWindows>,
    a: int,
    k: int,
)
    requires
        0 <= a < applications.len(),
        applications[a].pid == pid,
        forall|j: int| 0 <= j < a ==> (#[trigger] applications[j]).pid != pid,
        0 <= k < windows.len(),
        applications[a].windows@.contains(windows[k].entity),
        forall|j: int| 0 <= j < k ==> (#[trigger] windows[j]).entity != windows[k].entity,
    ensures
        messages::mark_changes(
            Event::ApplicationHidden { pid },
            windows,
            applications,
        ).contains((windows[k].entity, Some(Unmanaged::Hidden))) <==> windows[k].unmanaged is None
            && windows[k].disposition == Some(WindowDisposition::Managed),
        messages::mark_changes(
            Event::ApplicationVisible { pid },
            windows,
            applications,
        ).contains((windows[k].entity, None::<Unmanaged>)) <==> windows[k].unmanaged == Some(
            Unmanaged::Hidden,
        ),
{
    let entity = windows[k].entity;
    search::lemma_first_index(applications, messages::has_pid(pid), a);
    search::lemma_first_index(windows, messages::is_window(entity), k);
    let all = applications[a].windows@;
    let (f, g) = (messages::hide_change(windows), messages::show_change(windows));
    let i = choose|i: int| 0 <= i < all.len() && all[i] == entity;
    if f(all[i]) is Some {
        let n = search::lemma_filter_map_to(all, f, i);
        assert(all.filter_map(f)[n] == (entity, Some(Unmanaged::Hidden)));
    }
    if g(all[i]) is Some {
        let n = search::lemma_filter_map_to(all, g, i);
        assert(all.filter_map(g)[n] == (entity, None::<Unmanaged>));
    }
    let hidden = (entity, Some(Unmanaged::Hidden));
    if all.filter_map(f).contains(hidden) {
        let n = choose|n: int| 0 <= n < all.filter_map(f).len() && all.filter_map(f)[n] == hidden;
        let m = search::lemma_filter_map_from(all, f, n);
        assert(all[m] == entity);
    }
    let shown = (entity, None::<Unmanaged>);
    if all.filter_map(g).contains(shown) {
        let n = choose|n: int| 0 <= n < all.filter_map(g).len() && all.filter_map(g)[n] == shown;
        let m = search::lemma_filter_map_from(all, g, n);
        assert(all[m] == entity);
    }
}

// ---------------------------------------------------------------------------
// Mission Control
// ---------------------------------------------------------------------------
/// Mission Control is open from the event that opens it to the one that closes it, and
/// each strip that scrolls stops when it opens.
pub proof fn law_mission_control_stops_the_strips(
    strips: Seq<ScrollableModel>,
    strip: ScrollableModel,
    event: Event,
    other: Event,
    active: bool,
)
    requires
        event is MissionControlShowAllWindows || event is MissionControlShowFrontWindows || event
            is MissionControlShowDesktop,
    ensures
        messages::mission_control_after(event, active),
        !messages::mission_control_after(Event::MissionControlExit, active),
        other is WindowFocused || other is Command ==> messages::mission_control_after(
            other,
            active,
        ) == active && messages::stopped_by(other, strips).len() == 0,
        messages::stopped_by(event, strips.push(strip)) == if strip.scrolling {
            messages::stopped_by(event, strips).push(strip.entity)
        } else {
            messages::stopped_by(event, strips)
        },
        messages::stopped_by(Event::MissionControlExit, strips).len() == 0,
{
    search::lemma_filter_map_push(strips, messages::scrolls(), strip);
}

/// When Mission Control closes, a window that left the space alone is taken off the strip
/// that is shown, if it had a column there; without news of the space nothing changes.
pub proof fn law_windows_that_left_go_off_the_strip(
    strips: Seq<ScrollableModel>,
    windows: Seq<(Entity, WinID)>,
    present: Seq<WinID>,
    s: int,
    x: Entity,
    k: int,
)
    requires
        0 <= s < strips.len(),
        strips[s].active,
        forall|t: int| 0 <= t < s ==> !(#[trigger] strips[t]).active,
        0 <= k < windows.len(),
        windows[k].0 == x,
        forall|j: int| 0 <= j < k ==> (#[trigger] windows[j]).0 != x,
        layout::all_windows(strips[s].columns).contains(x),
    ensures
        ({
            let gone = layout::all_windows(strips[s].columns).filter(
                messages::left_space(windows, present),
            );
            let after = messages::after_mission_control(strips, windows, Some(present));
            &&& gone.contains(x) <==> !present.contains(windows[k].1)
            &&& after.len() == strips.len()
            &&& after[s].columns == layout::without_all(strips[s].columns, gone)
            &&& forall|t: int| 0 <= t < strips.len() && t != s ==> #[trigger] after[t] == strips[t]
        }),
        messages::after_mission_control(strips, windows, None) == strips,
{
    search::lemma_first_index(strips, messages::shown(), s);
    search::lemma_first_index(windows, messages::is_entry(x), k);
    search::lemma_filtered(
        layout::all_windows(strips[s].columns),
        messages::left_space(windows, present),
        x,
    );
}

/// A new window is taken over for the application of its process, unless it is known or
/// its process is not.
pub proof fn law_new_window_is_adopted(
    known: Seq<WinID>,
    applications: Seq<(i32, Entity)>,
    fresh: Seq<NewWindow>,
    window: NewWindow,
    k: int,
)
    requires
        0 <= k < applications.len(),
        window.pid == Some(applications[k].0),
        forall|j: int| 0 <= j < k ==> (#[trigger] applications[j]).0 != applications[k].0,
    ensures
        messages::adopted(seq![window] + fresh, known, applications) == if known.contains(
            window.id,
        ) {
            messages::adopted(fresh, known, applications)
        } else {
            messages::adopted(fresh, known, applications).push((window.id, applications[k].1))
        },
{
    let all = seq![window] + fresh;
    assert(all.reverse() =~= fresh.reverse().push(window));
    search::lemma_filter_map_push(
        fresh.reverse(),
        messages::adopts(known, applications),
        window,
    );
    search::lemma_first_index(applications, messages::runs_as(applications[k].0), k);
}

// ---------------------------------------------------------------------------
// Windows that leave and return
// ---------------------------------------------------------------------------
/// The window is on no strip.
pub open spec fn is_nowhere(strips: Seq<VirtualModel>, entity: Entity) -> bool {
    forall|t: int|
        0 <= t < strips.len() ==> places::is_absent((#[trigger] strips[t]).columns, entity)
}

/// A window that floats, or is left alone, is on its strip no more; a minimized or hidden
/// one is taken off otherwise.
pub proof fn law_floating_window_leaves_its_strip(
    strips: Seq<VirtualModel>,
    window: UnmanagedWindow,
    s: int,
    i: int,
)
    requires
        0 <= s < strips.len(),
        places::only_at(strips[s].columns, window.entity, i, 0),
        strips[s].columns[i] is Single,
        forall|t: int|
            0 <= t < strips.len() && t != s ==> places::is_absent(
                (#[trigger] strips[t]).columns,
                window.entity,
            ),
    ensures
        window.unmanaged == Some(Unmanaged::Floating) || window.unmanaged == Some(
            Unmanaged::Passthrough,
        ) ==> {
            let after = managing::after_unmanaging(strips, window);
            let columns = strips[s].columns;
            &&& arrivals::differ_at(strips, after, s)
            &&& after[s].columns == columns.take(i) + columns.skip(i + 1)
        },
        window.unmanaged == Some(Unmanaged::Minimized) || window.unmanaged == Some(
            Unmanaged::Hidden,
        ) || window.unmanaged is None ==> managing::after_unmanaging(strips, window) == strips,
{
    let columns = strips[s].columns;
    places::law_window_is_found_where_it_stands(columns, window.entity, i, 0);
    on_strip::law_removing_a_single_closes_the_gap(columns, window.entity, i);
    assert(layout::removed(columns, window.entity) =~= columns.take(i) + columns.skip(i + 1));
    let after = strips.map_values(managing::strip_without(window.entity));
    assert forall|t: int| 0 <= t < strips.len() && t != s implies #[trigger] after[t]
        == strips[t] by {
        places::law_absent_window_is_not_found(strips[t].columns, window.entity);
    }
}

/// A window goes out of sight when it is minimized or hidden, and is remembered with the
/// strip and the column where it stood.
pub proof fn law_column_of_a_window_is_remembered(
    strips: Seq<VirtualModel>,
    entity: Entity,
    s: int,
    i: int,
    p: int,
)
    requires
        0 <= s < strips.len(),
        places::only_at(strips[s].columns, entity, i, p),
        forall|t: int|
            s < t < strips.len() ==> places::is_absent((#[trigger] strips[t]).columns, entity),
        i <= usize::MAX,
    ensures
        managing::remembered(strips, entity) == Some(
            PreviousManagedStrip {
                workspace_id: strips[s].id,
                virtual_index: strips[s].virtual_index,
                index: i as usize,
            },
        ),
        managing::goes_out_of_sight(Some(Unmanaged::Minimized)),
        managing::goes_out_of_sight(Some(Unmanaged::Hidden)),
        !managing::goes_out_of_sight(Some(Unmanaged::Floating)),
        !managing::goes_out_of_sight(Some(Unmanaged::Passthrough)),
        !managing::goes_out_of_sight(None),
{
    let f = managing::strip_with(entity);
    places::law_window_is_found_where_it_stands(strips[s].columns, entity, i, p);
    assert forall|t: int| s < t < strips.len() implies !f(#[trigger] strips[t]) by {
        places::law_absent_window_is_not_found(strips[t].columns, entity);
    }
    search::lemma_last_index(strips, f, s);
}

/// Taking a window off strips that do not hold it leaves them as they are.
proof fn lemma_bare(strips: Seq<VirtualModel>, entity: Entity)
    requires
        is_nowhere(strips, entity),
    ensures
        strips.map_values(managing::strip_without(entity)) == strips,
{
    let bare = strips.map_values(managing::strip_without(entity));
    assert forall|t: int| 0 <= t < strips.len() implies #[trigger] bare[t] == strips[t] by {
        places::law_absent_window_is_not_found(strips[t].columns, entity);
    }
    assert(bare =~= strips);
}

/// A window that returns has a column on the strip that it was on, where a rule puts it
/// or else where it was.
pub proof fn law_window_returns_to_its_strip(
    strips: Seq<VirtualModel>,
    entity: Entity,
    insertion: Option<usize>,
    previous: PreviousManagedStrip,
    frame: spec_fn(Entity) -> Option<IRect>,
    s: int,
)
    requires
        is_nowhere(strips, entity),
        0 <= s < strips.len(),
        strips[s].id == previous.workspace_id,
        strips[s].virtual_index == previous.virtual_index,
        forall|t: int|
            0 <= t < s ==> (#[trigger] strips[t]).id != previous.workspace_id
                || strips[t].virtual_index != previous.virtual_index,
    ensures
        ({
            let after = managing::after_return(strips, entity, insertion, Some(previous), frame);
            let wanted = if insertion is Some {
                insertion->0 as int
            } else {
                previous.index as int
            };
            let len = strips[s].columns.len() as int;
            &&& arrivals::differ_at(strips, after, s)
            &&& arrivals::has_joined(
                strips[s].columns,
                after[s].columns,
                entity,
                if wanted < len {
                    wanted
                } else {
                    len
                },
            )
        }),
{
    lemma_bare(strips, entity);
    search::lemma_first_index(strips, managing::is_previous(previous), s);
}

/// A window that was on no strip goes to the one that is shown: before the first column
/// whose topmost window has its middle right of its own, or to the end.
pub proof fn law_dropped_window_goes_under_its_frame(
    strips: Seq<VirtualModel>,
    entity: Entity,
    frame: spec_fn(Entity) -> Option<IRect>,
    s: int,
    i: int,
)
    requires
        is_nowhere(strips, entity),
        arrivals::is_first_shown(strips, s),
        places::all_filled(strips[s].columns),
        0 <= i <= strips[s].columns.len(),
        frame(entity) is Some,
        ({
            let columns = strips[s].columns;
            let mine = focus::middle(frame(entity)->0);
            &&& forall|j: int|
                0 <= j < i ==> (frame((#[trigger] columns[j]).windows()[0]) is Some
                    ==> focus::middle(frame(columns[j].windows()[0])->0) <= mine)
            &&& i < columns.len() ==> frame(columns[i].windows()[0]) is Some && focus::middle(
                frame(columns[i].windows()[0])->0,
            ) > mine
        }),
    ensures
        ({
            let after = managing::after_return(strips, entity, None, None, frame);
            &&& arrivals::differ_at(strips, after, s)
            &&& arrivals::has_joined(strips[s].columns, after[s].columns, entity, i)
        }),
{
    let columns = strips[s].columns;
    lemma_bare(strips, entity);
    search::lemma_first_index(strips, managing::is_shown(), s);
    on_strip::law_tops_are_the_first_of_each_column(columns);
    let tops = layout::tops(columns);
    let f = managing::is_right_of(frame, focus::middle(frame(entity)->0));
    assert forall|j: int| 0 <= j < i implies !f(#[trigger] tops[j]) by {
        assert(tops[j] == columns[j].windows()[0]);
    }
    if i < columns.len() {
        assert(tops[i] == columns[i].windows()[0]);
        search::lemma_first_index(tops, f, i);
    } else {
        search::lemma_no_first_index(tops, f);
    }
}

/// A window is placed again where it is of the managed kind and there, but not while
/// windows are first gathered.
pub proof fn law_only_managed_windows_return(
    disposition: Option<WindowDisposition>,
    gone: bool,
    initializing: bool,
)
    ensures
        managing::answer_to_return(disposition, gone, initializing) == ManagedAgain::Placed
            <==> disposition == Some(WindowDisposition::Managed) && !gone && !initializing,
        managing::answer_to_return(disposition, gone, initializing) == ManagedAgain::Observed
            <==> disposition == Some(WindowDisposition::Managed) && !gone && initializing,
{
}

/// A window is destroyed where an event says so and it does not answer any more; one that
/// still answers, or whose application is not known, is not.
pub proof fn law_answering_window_is_not_destroyed(
    event: Event,
    windows: Seq<ReportedWindow>,
    k: int,
)
    requires
        event is WindowDestroyed,
        0 <= k < windows.len(),
        windows[k].id == event->WindowDestroyed_window_id,
        forall|j: int| 0 <= j < k ==> (#[trigger] windows[j]).id != windows[k].id,
    ensures
        windows[k].answers || windows[k].app is None ==> managing::destroyed(event, windows)
            is None,
        !windows[k].answers && windows[k].app is Some ==> managing::destroyed(event, windows)
            == Some(windows[k]),
{
    search::lemma_first_index(windows, managing::is_reported(windows[k].id), k);
}

/// An application has another managed window just where the list has one of it that is
/// not the window in question.
pub proof fn law_other_windows_of_an_application(
    managed: Seq<(Entity, Entity)>,
    entity: Entity,
    other: Entity,
    app: Entity,
)
    ensures
        !managing::owns_other(Seq::empty(), entity, app),
        managing::owns_other(managed.push((entity, app)), entity, app) <==> managing::owns_other(
            managed,
            entity,
            app,
        ),
        other != entity ==> managing::owns_other(managed.push((other, app)), entity, app),
{
    let (more, with) = (managed.push((entity, app)), managed.push((other, app)));
    if managing::owns_other(managed, entity, app) {
        let i = choose|i: int|
            0 <= i < managed.len() && (#[trigger] managed[i]).0 != entity && managed[i].1 == app;
        assert(more[i] == managed[i]);
    }
    if managing::owns_other(more, entity, app) {
        let i = choose|i: int|
            0 <= i < more.len() && (#[trigger] more[i]).0 != entity && more[i].1 == app;
        assert(managed[i] == more[i]);
    }
    assert(with[managed.len() as int] == (other, app));
}

/// A window that begins to float is no longer than it was, nor than four fifths of the
/// display, and as long as it can be.
pub proof fn law_floating_window_is_limited(window: int, display: int)
    requires
        0 <= window,
        0 <= display,
    ensures
        managing::float_length(window, display) <= window,
        5 * managing::float_length(window, display) <= 4 * display,
        managing::float_length(window, display) == window || 5 * (managing::float_length(
            window,
            display,
        ) + 1) > 4 * display,
{
}

/// What is moved between bounds that it does not fit starts at the lower one. What is
/// outside them goes to the nearer end, and what is between them stays.
pub proof fn law_window_is_moved_to_the_nearer_end(at: int, size: int, low: int, high: int)
    ensures
        size > high - low ==> floating::start_within(at, size, low, high) == low,
        size <= high - low && at < low ==> floating::start_within(at, size, low, high) == low,
        size <= high - low && at + size > high ==> floating::start_within(at, size, low, high)
            + size == high,
        low <= at && at + size <= high && size >= 0 ==> floating::start_within(at, size, low, high)
            == at,
{
}

/// A window that is set aside goes down and to the right where that keeps it within the
/// bounds.
pub proof fn law_window_goes_aside_diagonally(
    frame: IRect,
    bounds: IRect,
    offset: int,
    aside: IRect,
)
    requires
        frame.proper(),
        floating::is_aside(frame, bounds, offset, aside),
        0 <= offset,
        bounds.min.x <= frame.min.x,
        bounds.min.y <= frame.min.y,
        frame.max.x + offset <= bounds.max.x,
        frame.max.y + offset <= bounds.max.y,
    ensures
        aside.min.x == frame.min.x + offset,
        aside.min.y == frame.min.y + offset,
        aside.max.x == frame.max.x + offset,
        aside.max.y == frame.max.y + offset,
{
    let all = floating::offsets(offset);
    assert(all[0] == (offset, offset));
    search::lemma_first_index(all, floating::stays_within(frame, bounds), 0);
}

// ---------------------------------------------------------------------------
// Sizes
// ---------------------------------------------------------------------------
/// Sizes are the same where they differ by no more than a point; else the actual one is
/// more, or less.
pub proof fn law_a_point_makes_no_difference(actual: i32, expected: i32)
    ensures
        resize::is_more(actual, expected) <==> actual >= expected + 2,
        resize::is_less(actual, expected) <==> actual <= expected - 2,
        resize::is_same(actual, expected) <==> expected - 1 <= actual <= expected + 1,
{
}

/// Where a window stayed wider than it was asked to be, the other windows of its column
/// that are narrower than the column are widened to it, and no other.
pub proof fn law_narrower_windows_fill_the_column(
    entity: Entity,
    other: Entity,
    actual: IVec2,
    expected: IVec2,
    strips: Seq<Seq<ColumnModel>>,
    width: i32,
    frame: spec_fn(Entity) -> Option<IRect>,
    s: int,
    i: int,
    p: int,
)
    requires
        0 <= s < strips.len(),
        places::only_at(strips[s], entity, i, p),
        forall|t: int| 0 <= t < s ==> places::is_absent(#[trigger] strips[t], entity),
        strips[s][i].windows().contains(other),
        frame(other) is Some,
    ensures
        ({
            let resized = resize::fill_column(entity, actual, expected, strips, Some(width), frame);
            let size = IVec2 { x: width, y: actual.y };
            &&& resized.contains((other, size)) <==> actual.x >= expected.x + 2 && other != entity
                && frame(other)->0.max.x - frame(other)->0.min.x < width
            &&& actual.x < expected.x + 2 ==> resized.len() == 0
        }),
{
    let f = resize::column_with(entity);
    places::law_window_is_found_where_it_stands(strips[s], entity, i, p);
    assert forall|t: int| 0 <= t < s implies !f(#[trigger] strips[t]) by {
        places::law_absent_window_is_not_found(strips[t], entity);
    }
    search::lemma_first_index(strips, f, s);
    let all = strips[s][i].windows();
    let g = resize::widened(entity, width, actual.y, frame);
    let size = IVec2 { x: width, y: actual.y };
    let k = choose|k: int| 0 <= k < all.len() && all[k] == other;
    if g(other) is Some {
        let n = search::lemma_filter_map_to(all, g, k);
        assert(all.filter_map(g)[n] == (other, size));
    }
    if all.filter_map(g).contains((other, size)) {
        let n = choose|n: int| 0 <= n < all.filter_map(g).len() && all.filter_map(g)[n] == (
            other,
            size,
        );
        let m = search::lemma_filter_map_from(all, g, n);
        assert(all[m] == other);
    }
}

/// The size that a rule asks for leaves the sides of the display free.
pub proof fn law_rule_leaves_the_sides_free(ratio: Number, display: PaddedDisplay)
    requires
        display.can_measure(),
    ensures
        defaults::asked_size(None, display) is None,
        defaults::asked_size(Some(ratio), display) matches Some(size) && size.ratio == ratio
            && display.bounds.min.x + display.pad_left + size.padded_width + display.pad_right
            == display.bounds.max.x && display.bounds.min.y + size.height == display.bounds.max.y,
{
}

/// A managed window is padded, first above and below, then on both sides, within the
/// bounds; it is widened last, where a rule says so.
pub proof fn law_managed_window_is_padded_then_widened(
    rules: WindowRules,
    display: PaddedDisplay,
    initializing: bool,
)
    requires
        rules.disposition == WindowDisposition::Managed,
        display.can_measure(),
    ensures
        ({
            let steps = rules.steps(display, initializing);
            &&& steps.len() == if rules.width_ratio is Some {
                6int
            } else {
                3int
            }
            &&& 0 <= rules.vertical_padding <= 50 ==> steps[0] == DefaultStep::PadVertically(
                rules.vertical_padding,
            )
            &&& rules.vertical_padding < 0 ==> steps[0] == DefaultStep::PadVertically(0)
            &&& rules.vertical_padding > 50 ==> steps[0] == DefaultStep::PadVertically(50)
            &&& 0 <= rules.horizontal_padding <= 50 ==> steps[1] == DefaultStep::PadHorizontally(
                rules.horizontal_padding,
            )
            &&& rules.horizontal_padding < 0 ==> steps[1] == DefaultStep::PadHorizontally(0)
            &&& rules.horizontal_padding > 50 ==> steps[1] == DefaultStep::PadHorizontally(50)
            &&& steps[2] == DefaultStep::Note
            &&& rules.width_ratio is Some ==> {
                &&& steps[3] == DefaultStep::Measure
                &&& steps[4] matches DefaultStep::Widen { ratio, padded_width } && Some(ratio)
                    == rules.width_ratio && display.bounds.min.x + display.pad_left + padded_width
                    + display.pad_right == display.bounds.max.x
                &&& steps[5] == DefaultStep::Measure
            }
        }),
{
}

/// A floating window that a rule places is placed on the whole display, and nothing else
/// is done to it.
pub proof fn law_grid_covers_the_display(rules: WindowRules, display: PaddedDisplay)
    requires
        rules.disposition == WindowDisposition::Floating,
        rules.grid is Some,
        display.can_measure(),
    ensures
        rules.steps(display, false) == seq![
            DefaultStep::PlaceOnGrid {
                ratios: rules.grid->0,
                width: (display.bounds.max.x - display.bounds.min.x) as i32,
                height: (display.bounds.max.y - display.bounds.min.y) as i32,
            },
        ],
{
}

/// A window that begins to float is resized and moved where its frame is to be another,
/// and only then; it then has that frame.
pub proof fn law_reframed_window_has_its_frame(
    reframing: Reframing,
    frame: IRect,
    left: int,
    top: int,
    right: int,
    bottom: int,
)
    requires
        managing::reframes(reframing, frame, (left, top, right, bottom)),
    ensures
        reframing.resize is Some ==> reframing.resize->0.x == right - left
            && reframing.resize->0.y == bottom - top,
        reframing.resize is None ==> frame.max.x - frame.min.x == right - left && frame.max.y
            - frame.min.y == bottom - top,
        reframing.reposition is Some ==> reframing.reposition->0.x == left
            && reframing.reposition->0.y == top,
        reframing.reposition is None ==> frame.min.x == left && frame.min.y == top,
{
}

/// A floating window that a rule places goes to the place of the rule; one that a rule
/// just floats stays where it is.
pub proof fn law_rule_places_the_floating(
    window: UnmanagedWindow,
    display: IRect,
    initializing: bool,
    reframing: Reframing,
)
    requires
        window.is_reframed(display, initializing, reframing),
    ensures
        window.unmanaged == Some(Unmanaged::Floating) && window.app is Some && !initializing
            && window.grid is Some ==> reframing.reposition == Some((window.grid->0).0)
            && reframing.resize == Some((window.grid->0).1),
        window.unmanaged != Some(Unmanaged::Floating) || initializing || window.app is None || (
        window.grid is None && window.floats_by_rule) ==> reframing.resize is None
            && reframing.reposition is None,
{
}

/// Where a window goes that had the focus, only strips that are shown give it to another.
pub proof fn law_hidden_strips_give_no_focus(
    heirs: Seq<Option<Entity>>,
    strips: Seq<VirtualModel>,
    entity: Entity,
    tabbed: bool,
    frame: spec_fn(Entity) -> Option<IRect>,
    from: int,
    known: Seq<Entity>,
    s: int,
)
    requires
        managing::are_heirs(heirs, strips, entity, tabbed, frame, from, known),
        0 <= s < strips.len(),
    ensures
        heirs.len() == strips.len(),
        !strips[s].active || tabbed ==> heirs[s] is None,
        strips[s].active ==> focus::inherits(
            heirs[s],
            strips[s].columns,
            entity,
            tabbed,
            frame,
            from,
            known,
        ),
{
    assert(strips[s].active ==> focus::inherits(
        heirs[s],
        strips[s].columns,
        entity,
        tabbed,
        frame,
        from,
        known,
    ));
}

/// A size is as asked for where neither side differs by more than a point.
pub proof fn law_size_is_as_asked(actual: IVec2, expected: IVec2)
    ensures
        resize::is_as_asked(actual, expected) <==> expected.x - 1 <= actual.x <= expected.x + 1
            && expected.y - 1 <= actual.y <= expected.y + 1,
{
}

/// Only the end of Mission Control changes strips.
pub proof fn law_only_closing_mission_control_changes_strips(
    event: Event,
    strips: Seq<ScrollableModel>,
    windows: Seq<(Entity, WinID)>,
    present: Option<Seq<WinID>>,
)
    ensures
        !(event is MissionControlExit) ==> messages::strips_after(event, strips, windows, present)
            == strips,
        event is MissionControlExit ==> messages::strips_after(event, strips, windows, present)
            == messages::after_mission_control(strips, windows, present),
{
}

/// Removing a window takes its column away from the first strip that it is on.
pub proof fn law_gone_window_leaves_its_strip(
    strips: Seq<VirtualModel>,
    entity: Entity,
    s: int,
    i: int,
)
    requires
        0 <= s < strips.len(),
        places::only_at(strips[s].columns, entity, i, 0),
        strips[s].columns[i] is Single,
        forall|t: int| 0 <= t < s ==> places::is_absent((#[trigger] strips[t]).columns, entity),
    ensures
        ({
            let after = managing::after_removal(strips, entity);
            let columns = strips[s].columns;
            &&& arrivals::differ_at(strips, after, s)
            &&& after[s].columns == columns.take(i) + columns.skip(i + 1)
        }),
{
    let columns = strips[s].columns;
    let f = managing::strip_with(entity);
    places::law_window_is_found_where_it_stands(columns, entity, i, 0);
    assert forall|t: int| 0 <= t < s implies !f(#[trigger] strips[t]) by {
        places::law_absent_window_is_not_found(strips[t].columns, entity);
    }
    search::lemma_first_index(strips, f, s);
    on_strip::law_removing_a_single_closes_the_gap(columns, entity, i);
    assert(layout::removed(columns, entity) =~= columns.take(i) + columns.skip(i + 1));
}

/// The observer of an application comes off with a window only where nothing else needs
/// it, and what did not come off is tried again a quarter of a second later.
pub proof fn law_detaching_is_tried_again<G: FnOnce() -> bool, F: FnOnce() -> bool>(
    detachment: Detachment,
    app: OwningApp,
    owns_other: bool,
    unobserve_window: G,
    unobserve: F,
    now: Instant,
)
    requires
        managing::is_detachment(detachment, app, owns_other, unobserve_window, unobserve, now),
        now.nanos + 250_000_000 <= u64::MAX,
    ensures
        !app.observed || app.frontmost || owns_other ==> !detachment.unmark,
        app.observed && !app.frontmost && !owns_other ==> call_ensures(
            unobserve,
            (),
            detachment.unmark,
        ),
        app.observed && !app.frontmost && !owns_other && !detachment.unmark ==> detachment.retry
            is Some && detachment.retry->0.remove_application_marker,
        detachment.unmark && detachment.retry is Some
            ==> !detachment.retry->0.remove_application_marker,
        detachment.retry is Some ==> detachment.retry->0.deadline.nanos == now.nanos + 250_000_000
            && detachment.retry->0.attempts == 0,
        detachment.retry is None ==> call_ensures(unobserve_window, (), true),
{
    let lets_go = crate::observation::lets_go(app.observed, app.frontmost, owns_other);
    let detached = choose|detached: bool|
        {
            &&& #[trigger] call_ensures(unobserve_window, (), detached)
            &&& !lets_go ==> !detachment.unmark
            &&& lets_go ==> call_ensures(unobserve, (), detachment.unmark)
            &&& detachment.retry == if lets_go && !detachment.unmark {
                Some(crate::observation::ObserverDetachRetry::scheduled(true, now))
            } else if !detached {
                Some(crate::observation::ObserverDetachRetry::scheduled(false, now))
            } else {
                None
            }
        };
    assert(call_ensures(unobserve_window, (), detached));
}

/// A floating window is placed by a rule only once the start is over.
pub proof fn law_grid_waits_for_the_start(rules: WindowRules, display: PaddedDisplay)
    requires
        rules.disposition == WindowDisposition::Floating,
    ensures
        rules.grid is None ==> rules.steps(display, false).len() == 0,
        rules.steps(display, true).len() == 0,
        rules.grid is Some ==> rules.steps(display, false).len() == 1,
{
}

/// Without a strip that is shown a new window finds no place.
pub proof fn law_no_place_without_a_shown_strip(
    strips: Seq<VirtualModel>,
    window: Newcomer,
    focused: Option<Entity>,
)
    requires
        window.disposition == WindowDisposition::Managed,
        forall|t: int| 0 <= t < strips.len() ==> !(#[trigger] strips[t]).active,
    ensures
        messages::after_welcome(strips, window, focused) == strips,
{
    search::lemma_no_first_index(strips, managing::is_shown());
}

/// A window that begins to float has its limited size and is within its display. Where
/// there is room it has gone down and to the right by thirty-two points.
pub proof fn law_floating_window_pops_out(frame: IRect, display: IRect)
    requires
        managing::can_float(frame, display),
    ensures
        ({
            let (left, top, right, bottom) = managing::float_frame(frame, display);
            let width = managing::float_length(
                frame.max.x - frame.min.x,
                display.max.x - display.min.x,
            );
            let height = managing::float_length(
                frame.max.y - frame.min.y,
                display.max.y - display.min.y,
            );
            let inside = display.min.x <= frame.min.x && display.min.y <= frame.min.y;
            let room = frame.min.x + width + 32 <= display.max.x && frame.min.y + height + 32
                <= display.max.y;
            &&& right - left == width
            &&& bottom - top == height
            &&& display.min.x <= left && right <= display.max.x
            &&& display.min.y <= top && bottom <= display.max.y
            &&& inside && room ==> left == frame.min.x + 32 && top == frame.min.y + 32
        }),
{
    let base = managing::float_base(frame, display);
    let width = managing::float_length(
        frame.max.x - frame.min.x,
        display.max.x - display.min.x,
    );
    let height = managing::float_length(
        frame.max.y - frame.min.y,
        display.max.y - display.min.y,
    );
    law_floating_window_is_limited(frame.max.x - frame.min.x, display.max.x - display.min.x);
    law_floating_window_is_limited(frame.max.y - frame.min.y, display.max.y - display.min.y);
    floating::law_clamped_frame_is_within(
        frame.min.x as int,
        width,
        display.min.x as int,
        display.max.x as int,
    );
    floating::law_clamped_frame_is_within(
        frame.min.y as int,
        height,
        display.min.y as int,
        display.max.y as int,
    );
    let all = floating::offsets(32);
    let f = floating::stays_within(base, display);
    search::lemma_first_index_meaning(all, f);
    assert(all[0] == (32int, 32int));
    if frame.min.x + width + 32 <= display.max.x && frame.min.y + height + 32 <= display.max.y
        && display.min.x <= frame.min.x && display.min.y <= frame.min.y {
        assert(f(all[0]));
        search::lemma_first_index(all, f, 0);
    }
}

/// A window that is taken off its strip is taken off as any other, out of a stack too.
pub proof fn law_window_leaves_its_stack(
    strips: Seq<VirtualModel>,
    window: UnmanagedWindow,
    newcomer: Newcomer,
    focused: Option<Entity>,
    s: int,
    i: int,
    p: int,
)
    requires
        0 <= s < strips.len(),
        places::only_at(strips[s].columns, window.entity, i, p),
        strips[s].columns[i] is Stack,
        strips[s].columns[i].windows().len() > 1,
        forall|t: int|
            0 <= t < strips.len() && t != s ==> places::is_absent(
                (#[trigger] strips[t]).columns,
                window.entity,
            ),
        window.unmanaged == Some(Unmanaged::Floating),
        newcomer.entity == window.entity,
        newcomer.disposition != WindowDisposition::Managed,
        !newcomer.tabbed,
    ensures
        ({
            let floated = managing::after_unmanaging(strips, window);
            let gone = managing::after_removal(strips, window.entity);
            let welcomed = messages::after_welcome(strips, newcomer, focused);
            let columns = strips[s].columns;
            let left = columns[i].windows().take(p) + columns[i].windows().skip(p + 1);
            &&& arrivals::differ_at(strips, floated, s)
            &&& floated[s].columns.len() == columns.len()
            &&& floated[s].columns[i].windows() == left
            &&& forall|j: int|
                0 <= j < columns.len() && j != i ==> #[trigger] floated[s].columns[j] == columns[j]
            &&& gone == floated
            &&& welcomed == floated
        }),
{
    let columns = strips[s].columns;
    let entity = window.entity;
    let f = managing::strip_with(entity);
    places::law_window_is_found_where_it_stands(columns, entity, i, p);
    on_strip::law_removing_from_a_stack_keeps_the_rest(columns, entity, i, p);
    let floated = strips.map_values(managing::strip_without(entity));
    assert forall|t: int| 0 <= t < strips.len() && t != s implies #[trigger] floated[t]
        == strips[t] && !f(strips[t]) by {
        places::law_absent_window_is_not_found(strips[t].columns, entity);
    }
    assert forall|t: int| 0 <= t < s implies !f(#[trigger] strips[t]) by {
        assert(floated[t] == strips[t]);
    }
    search::lemma_first_index(strips, f, s);
    assert(managing::after_removal(strips, entity) =~= floated);
}

/// A frame of two corners reaches from the one to the other.
pub proof fn law_frame_reaches_between_its_corners(
    frame: IRect,
    x: int,
    y: int,
    width: int,
    height: int,
)
    requires
        floating::has_corners(frame, x, y, x + width, y + height),
        width >= 0,
        height >= 0,
    ensures
        frame.min.x == x,
        frame.min.y == y,
        frame.max.x - frame.min.x == width,
        frame.max.y - frame.min.y == height,
{
}

} // verus!
