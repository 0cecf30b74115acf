//! Spaces that come and go, their strips, and the displays that they are on.
use vstd::prelude::*;

use crate::events::Event;
use crate::geometry::{Entity, IRect, IVec2};
use crate::laws::arrivals;
use crate::laws::places;
use crate::laws::strips as on_strip;
use crate::layout;
use crate::layout::{ColumnModel, WorkspaceId};
use crate::reconcile;
use crate::reconcile::{
    DisplayFrame, DisplayPlan, DisplayProperties, DisplayReconcileState, KnownDisplay, MarkedDisplay, PlacedStrip, ScannedDisplay,
    StripPlace, StripRefresh,
};
use crate::search;
use crate::windowset::WinID;
use crate::workspace;
use crate::workspace::{
    AttachedModel, EntryModel, NativeFullscreenMarker, Orphan, OrphanOutcome, ShownSpace,
    SpaceSwitch, WindowEntry,
};

verus! {

/// The last strip that is shown though it is of another space.
pub open spec fn is_last_stale(entries: Seq<EntryModel>, space: WorkspaceId, from: int) -> bool {
    &&& 0 <= from < entries.len()
    &&& entries[from].active
    &&& entries[from].id != space
    &&& forall|j: int|
        from < j < entries.len() ==> !(#[trigger] entries[j]).active || entries[j].id == space
}

/// Showing another space hides the strip that was shown and shows the one of the space.
pub proof fn law_space_brings_its_strip(
    entries: Seq<EntryModel>,
    space: WorkspaceId,
    fullscreen: bool,
    focused: Option<Entity>,
    display: IRect,
    from: int,
    into: int,
)
    requires
        is_last_stale(entries, space, from),
        0 <= into < entries.len(),
        !entries[into].active,
        entries[into].id == space,
        forall|j: int|
            into < j < entries.len() ==> (#[trigger] entries[j]).active || entries[j].id != space,
    ensures
        workspace::switched(entries, space, fullscreen, focused, display) == (
            SpaceSwitch::Switch { from: entries[from].entity, into: entries[into].entity },
            entries,
        ),
{
    search::lemma_last_index(entries, workspace::is_stale(space), from);
    search::lemma_last_index(entries, workspace::is_arriving(space), into);
}

/// A space that one window fills takes the focused window off the strip that was shown,
/// and remembers the very column where it stood.
pub proof fn law_fullscreen_window_leaves_its_strip(
    entries: Seq<EntryModel>,
    space: WorkspaceId,
    window: Entity,
    display: IRect,
    from: int,
    i: int,
)
    requires
        is_last_stale(entries, space, from),
        forall|j: int|
            0 <= j < entries.len() ==> (#[trigger] entries[j]).active || entries[j].id != space,
        places::only_at(entries[from].columns, window, i, 0),
        entries[from].columns[i] is Single,
        i <= usize::MAX,
    ensures
        ({
            let (switch, after) = workspace::switched(entries, space, true, Some(window), display);
            let columns = entries[from].columns;
            &&& switch == SpaceSwitch::Fullscreen {
                from: entries[from].entity,
                window,
                origin: display.min,
                previous_strip: entries[from].id,
                previous_index: i as usize,
            }
            &&& after.len() == entries.len()
            &&& after[from].columns == columns.take(i) + columns.skip(i + 1)
            &&& after[from].id == entries[from].id
            &&& after[from].entity == entries[from].entity
            &&& after[from].active == entries[from].active
            &&& forall|j: int|
                0 <= j < entries.len() && j != from ==> #[trigger] after[j] == entries[j]
        }),
{
    search::lemma_last_index(entries, workspace::is_stale(space), from);
    search::lemma_no_last_index(entries, workspace::is_arriving(space));
    let columns = entries[from].columns;
    places::law_window_is_found_where_it_stands(columns, window, i, 0);
    on_strip::law_removing_a_single_closes_the_gap(columns, window, i);
    assert(layout::removed(columns, window) =~= columns.take(i) + columns.skip(i + 1));
}

/// Nothing changes where the space that is shown is the one that was, or where a space
/// without a strip is not filled by a focused window.
pub proof fn law_space_without_strip_changes_nothing(
    entries: Seq<EntryModel>,
    space: WorkspaceId,
    fullscreen: bool,
    focused: Option<Entity>,
    display: IRect,
)
    requires
        (forall|j: int|
            0 <= j < entries.len() ==> !(#[trigger] entries[j]).active || entries[j].id == space)
            || (!fullscreen || focused is None) && (forall|j: int|
            0 <= j < entries.len() ==> (#[trigger] entries[j]).active || entries[j].id != space),
    ensures
        workspace::switched(entries, space, fullscreen, focused, display) == (
            SpaceSwitch::Stay,
            entries,
        ),
{
    if forall|j: int|
        0 <= j < entries.len() ==> !(#[trigger] entries[j]).active || entries[j].id == space {
        search::lemma_no_last_index(entries, workspace::is_stale(space));
    } else {
        search::lemma_no_last_index(entries, workspace::is_arriving(space));
    }
}

/// The strip of a space is the first that is of it; a space without one has none.
pub proof fn law_destroyed_space_takes_its_strip(
    space: WorkspaceId,
    strips: Seq<(WorkspaceId, Entity)>,
    k: int,
)
    ensures
        0 <= k < strips.len() && strips[k].0 == space && (forall|j: int|
            0 <= j < k ==> (#[trigger] strips[j]).0 != space) ==> workspace::strip_of(space, strips)
            == Some(strips[k].1),
        (forall|j: int| 0 <= j < strips.len() ==> (#[trigger] strips[j]).0 != space)
            ==> workspace::strip_of(space, strips) is None,
{
    let f = workspace::of_space(space);
    if 0 <= k < strips.len() && strips[k].0 == space && (forall|j: int|
        0 <= j < k ==> (#[trigger] strips[j]).0 != space) {
        search::lemma_first_index(strips, f, k);
    }
    if forall|j: int| 0 <= j < strips.len() ==> (#[trigger] strips[j]).0 != space {
        search::lemma_no_first_index(strips, f);
    }
}

/// A new space gets one strip, empty and at the corner of its display; a second time it
/// gets none.
pub proof fn law_new_space_gets_one_strip(
    space: WorkspaceId,
    strips: Seq<WorkspaceId>,
    display: IRect,
)
    requires
        !strips.contains(space),
    ensures
        workspace::new_strip(space, strips, display) matches Some((id, columns, corner)) && id
            == space && columns.len() == 0 && corner.x == display.min.x && corner.y
            == display.min.y,
        workspace::new_strip(space, strips.push(space), display) is None,
{
    assert(strips.push(space)[strips.len() as int] == space);
}

/// A window that moves to a space is the last column of its strip, and stays where it is
/// on no other; a window that filled a display comes back to the column where it stood.
pub proof fn law_arriving_window_joins_its_strip(
    window: Entity,
    space: WorkspaceId,
    display: Entity,
    fullscreened: Seq<NativeFullscreenMarker>,
    strip: AttachedModel,
    k: int,
)
    requires
        places::is_absent(strip.columns, window),
    ensures
        ({
            let after = workspace::after_arrival(window, space, display, fullscreened)(strip);
            let here = strip.id == space && strip.parent == display;
            let came_back = 0 <= k < fullscreened.len() && fullscreened[k].previous_strip == space
                && (forall|j: int|
                0 <= j < k ==> (#[trigger] fullscreened[j]).previous_strip != space);
            let is_new = forall|j: int|
                0 <= j < fullscreened.len() ==> (#[trigger] fullscreened[j]).previous_strip
                    != space;
            let len = strip.columns.len() as int;
            &&& after.id == strip.id
            &&& after.entity == strip.entity
            &&& after.parent == strip.parent
            &&& !here ==> after.columns == strip.columns
            &&& here && is_new ==> after.columns == strip.columns.push(ColumnModel::Single(window))
            &&& here && came_back ==> arrivals::has_joined(
                strip.columns,
                after.columns,
                window,
                if fullscreened[k].previous_index < len {
                    fullscreened[k].previous_index as int
                } else {
                    len
                },
            )
        }),
{
    places::law_absent_window_is_not_found(strip.columns, window);
    let f = workspace::came_from(space);
    if 0 <= k < fullscreened.len() && fullscreened[k].previous_strip == space && (forall|j: int|
        0 <= j < k ==> (#[trigger] fullscreened[j]).previous_strip != space) {
        search::lemma_first_index(fullscreened, f, k);
    }
    if forall|j: int|
        0 <= j < fullscreened.len() ==> (#[trigger] fullscreened[j]).previous_strip != space {
        search::lemma_no_first_index(fullscreened, f);
    }
}

/// Windows arrive one after the other, in their order.
pub proof fn law_windows_arrive_in_order(
    windows: Seq<Entity>,
    window: Entity,
    space: WorkspaceId,
    display: Entity,
    fullscreened: Seq<NativeFullscreenMarker>,
    strips: Seq<AttachedModel>,
    s: int,
)
    requires
        0 <= s < strips.len(),
    ensures
        workspace::after_arrivals(Seq::empty(), space, display, fullscreened, strips) == strips,
        ({
            let before = workspace::after_arrivals(windows, space, display, fullscreened, strips);
            let after = workspace::after_arrivals(
                windows.push(window),
                space,
                display,
                fullscreened,
                strips,
            );
            &&& after.len() == before.len()
            &&& before.len() == strips.len()
            &&& after[s] == workspace::after_arrival(window, space, display, fullscreened)(before[s])
        }),
{
    assert(windows.push(window).drop_last() =~= windows);
    lemma_arrivals_keep_strips(windows, space, display, fullscreened, strips);
}

/// No strip comes or goes with the windows that arrive.
proof fn lemma_arrivals_keep_strips(
    windows: Seq<Entity>,
    space: WorkspaceId,
    display: Entity,
    fullscreened: Seq<NativeFullscreenMarker>,
    strips: Seq<AttachedModel>,
)
    ensures
        workspace::after_arrivals(windows, space, display, fullscreened, strips).len()
            == strips.len(),
    decreases windows.len(),
{
    if windows.len() > 0 {
        lemma_arrivals_keep_strips(windows.drop_last(), space, display, fullscreened, strips);
    }
}

/// Of the windows on a space those arrive that are known and not on its strip; those that
/// are not known are told apart.
pub proof fn law_windows_of_a_space_are_told_apart(
    ids: Seq<WinID>,
    id: WinID,
    windows: Seq<(WinID, Entity)>,
    columns: Seq<ColumnModel>,
    k: int,
    i: int,
    p: int,
)
    ensures
        ({
            let arriving = ids.filter_map(workspace::arrives(windows, columns));
            let unknown = ids.filter_map(workspace::unknown(windows));
            let more = ids.push(id).filter_map(workspace::arrives(windows, columns));
            let more_unknown = ids.push(id).filter_map(workspace::unknown(windows));
            let named = 0 <= k < windows.len() && windows[k].0 == id && (forall|j: int|
                0 <= j < k ==> (#[trigger] windows[j]).0 != id);
            let gone = forall|j: int| 0 <= j < windows.len() ==> (#[trigger] windows[j]).0 != id;
            &&& named && places::is_absent(columns, windows[k].1) ==> more == arriving.push(
                windows[k].1,
            )
            &&& named && places::only_at(columns, windows[k].1, i, p) ==> more == arriving
            &&& named ==> more_unknown == unknown
            &&& gone ==> more == arriving && more_unknown == unknown.push(id)
        }),
{
    search::lemma_filter_map_push(ids, workspace::arrives(windows, columns), id);
    search::lemma_filter_map_push(ids, workspace::unknown(windows), id);
    let f = workspace::names(id);
    if 0 <= k < windows.len() && windows[k].0 == id && (forall|j: int|
        0 <= j < k ==> (#[trigger] windows[j]).0 != id) {
        search::lemma_first_index(windows, f, k);
        if places::is_absent(columns, windows[k].1) {
            places::law_absent_window_is_not_found(columns, windows[k].1);
        }
        if places::only_at(columns, windows[k].1, i, p) {
            places::law_window_is_found_where_it_stands(columns, windows[k].1, i, p);
        }
    }
    if forall|j: int| 0 <= j < windows.len() ==> (#[trigger] windows[j]).0 != id {
        search::lemma_no_first_index(windows, f);
    }
}

/// A strip is laid out around the focused window if it is on it, and else around the
/// topmost window of its first column.
pub proof fn law_strip_is_laid_out_around_the_focus(
    columns: Seq<ColumnModel>,
    focused: Entity,
    i: int,
    p: int,
)
    ensures
        places::only_at(columns, focused, i, p) ==> workspace::centre_of(columns, Some(focused))
            == Some(focused),
        places::is_absent(columns, focused) && columns.len() > 0 && columns[0].windows().len() > 0
            ==> workspace::centre_of(columns, Some(focused)) == Some(columns[0].windows()[0]),
        columns.len() > 0 && columns[0].windows().len() > 0 ==> workspace::centre_of(columns, None)
            == Some(columns[0].windows()[0]),
        columns.len() == 0 ==> workspace::centre_of(columns, None) is None,
{
    if places::only_at(columns, focused, i, p) {
        places::law_window_is_found_where_it_stands(columns, focused, i, p);
    }
    if places::is_absent(columns, focused) {
        places::law_absent_window_is_not_found(columns, focused);
    }
}

/// The strip that is shown is activated where the system says what is on its space.
pub proof fn law_shown_strip_is_activated(
    shown: Entity,
    space: ShownSpace,
    strips: Seq<AttachedModel>,
    s: int,
)
    requires
        0 <= s < strips.len(),
        strips[s].entity == shown,
        forall|t: int| 0 <= t < s ==> (#[trigger] strips[t]).entity != shown,
    ensures
        workspace::activated(shown, space, strips) == if space.ids is Some {
            Some(strips[s])
        } else {
            None
        },
{
    search::lemma_first_index(strips, workspace::stands_for(shown), s);
}

/// Once a strip is activated it is laid out around the windows that came, or else around
/// its centre. An id is asked for again just where it is listed, on the space, and no
/// window is known by it.
pub proof fn law_activation_follows_what_came(
    space: ShownSpace,
    columns: Seq<ColumnModel>,
    id: WinID,
)
    requires
        space.ids is Some,
    ensures
        ({
            let came = space.ids->0@.filter_map(workspace::arrives(space.managed@, columns));
            &&& came.len() > 0 ==> space.reshuffled(columns) == came
            &&& came.len() == 0 && workspace::centre_of(columns, space.focused) is Some
                ==> space.reshuffled(columns) == seq![
                workspace::centre_of(columns, space.focused)->0,
            ]
        }),
        space.retried().contains(id) <==> {
            &&& space.listed@.contains(id)
            &&& space.ids->0@.contains(id)
            &&& !space.known@.contains(id)
            &&& forall|k: int|
                0 <= k < space.managed@.len() ==> (#[trigger] space.managed@[k]).0 != id
        },
{
    let ids = space.ids->0@;
    let f = workspace::unknown(space.managed@);
    let unknown = ids.filter_map(f);
    let p = workspace::is_none_of(space.known@);
    let q = workspace::is_one_of(space.unresolved());
    let none = forall|k: int|
        0 <= k < space.managed@.len() ==> (#[trigger] space.managed@[k]).0 != id;
    search::lemma_first_index_meaning(space.managed@, workspace::names(id));
    assert(f(id) == Some(id) <==> none) by {
        if none {
            search::lemma_no_first_index(space.managed@, workspace::names(id));
        }
    }
    assert(unknown.contains(id) <==> ids.contains(id) && none) by {
        if unknown.contains(id) {
            let k = choose|k: int| 0 <= k < unknown.len() && unknown[k] == id;
            let i = search::lemma_filter_map_from(ids, f, k);
            assert(ids[i] == id);
        }
        if ids.contains(id) && none {
            let i = choose|i: int| 0 <= i < ids.len() && ids[i] == id;
            let k = search::lemma_filter_map_to(ids, f, i);
            assert(unknown[k] == id);
        }
    }
    assert(space.unresolved().contains(id) <==> unknown.contains(id) && p(id)) by {
        search::lemma_filtered(unknown, p, id);
    }
    search::lemma_filtered(space.listed@, q, id);
}

// ---------------------------------------------------------------------------
// Orphans
// ---------------------------------------------------------------------------
/// The display that has the space, of those that are present and known.
pub open spec fn is_owner(
    space: WorkspaceId,
    present: Seq<ScannedDisplay>,
    known: Seq<KnownDisplay>,
    a: int,
    b: int,
) -> bool {
    &&& 0 <= a < present.len()
    &&& present[a].spaces@.contains(space)
    &&& 0 <= b < known.len()
    &&& known[b].id == present[a].id
    &&& forall|j: int| 0 <= j < b ==> (#[trigger] known[j]).id != present[a].id
    &&& forall|j: int|
        0 <= j < a ==> !(#[trigger] present[j]).spaces@.contains(space) || forall|k: int|
            0 <= k < known.len() ==> (#[trigger] known[k]).id != present[j].id
}

/// The display that has a space is found.
proof fn lemma_owner(
    space: WorkspaceId,
    present: Seq<ScannedDisplay>,
    known: Seq<KnownDisplay>,
    a: int,
    b: int,
)
    requires
        is_owner(space, present, known, a, b),
    ensures
        workspace::owner(space, present, known) == Some(known[b].entity),
{
    let f = workspace::owns(space, known);
    search::lemma_first_index(known, workspace::known_as(present[a].id), b);
    assert forall|j: int| 0 <= j < a implies !f(#[trigger] present[j]) by {
        if present[j].spaces@.contains(space) {
            search::lemma_no_first_index(known, workspace::known_as(present[j].id));
        }
    }
    search::lemma_first_index(present, f, a);
}

/// A strip without a display goes if it is empty, stays if it is on a display again, and
/// gives its windows free once it has waited too long; until its space is found it
/// waits.
pub proof fn law_orphan_waits_for_its_space(
    orphan: Orphan,
    strips: Seq<AttachedModel>,
    known: Seq<KnownDisplay>,
    present: Seq<ScannedDisplay>,
)
    ensures
        ({
            let (outcome, after) = workspace::settled(orphan, strips, known, present);
            let empty = orphan.strip@.len() == 0;
            &&& empty ==> outcome == OrphanOutcome::Despawn(orphan.entity) && after == strips
            &&& !empty && orphan.attached ==> outcome == OrphanOutcome::Keep(orphan.entity)
                && after == strips
            &&& !empty && !orphan.attached && orphan.timed_out ==> outcome == OrphanOutcome::Rescue(
                layout::all_windows(orphan.strip@),
            ) && after == strips
            &&& !empty && !orphan.attached && !orphan.timed_out && (forall|j: int|
                0 <= j < present.len() ==> !(#[trigger] present[j]).spaces@.contains(
                    orphan.strip.spec_id(),
                )) ==> outcome == OrphanOutcome::Wait && after == strips
        }),
{
    let f = workspace::owns(orphan.strip.spec_id(), known);
    if forall|j: int|
        0 <= j < present.len() ==> !(#[trigger] present[j]).spaces@.contains(
            orphan.strip.spec_id(),
        ) {
        search::lemma_no_first_index(present, f);
    }
}

/// A strip whose space is found on a display goes there: its windows are the last columns
/// of the strip that is there, in order and a column each, or it is taken over as it is
/// where there is none.
pub proof fn law_orphan_comes_home(
    orphan: Orphan,
    strips: Seq<AttachedModel>,
    known: Seq<KnownDisplay>,
    present: Seq<ScannedDisplay>,
    a: int,
    b: int,
    s: int,
)
    requires
        orphan.strip@.len() > 0,
        !orphan.attached,
        !orphan.timed_out,
        is_owner(orphan.strip.spec_id(), present, known, a, b),
    ensures
        ({
            let (outcome, after) = workspace::settled(orphan, strips, known, present);
            let (space, display) = (orphan.strip.spec_id(), known[b].entity);
            let there = 0 <= s < strips.len() && strips[s].id == space && strips[s].parent
                == display && (forall|t: int|
                0 <= t < s ==> (#[trigger] strips[t]).id != space || strips[t].parent != display);
            let nowhere = forall|t: int|
                0 <= t < strips.len() ==> (#[trigger] strips[t]).id != space || strips[t].parent
                    != display;
            let windows = layout::all_windows(orphan.strip@);
            let n = strips[s].columns.len() as int;
            &&& there ==> {
                &&& outcome == (OrphanOutcome::Merge {
                    orphan: orphan.entity,
                    into: strips[s].entity,
                })
                &&& after.len() == strips.len()
                &&& after[s].columns.len() == n + windows.len()
                &&& forall|j: int| 0 <= j < n ==> #[trigger] after[s].columns[j]
                    == strips[s].columns[j]
                &&& forall|j: int|
                    0 <= j < windows.len() ==> after[s].columns[n + j] == ColumnModel::Single(
                        #[trigger] windows[j],
                    )
                &&& after[s].id == space
                &&& after[s].parent == display
                &&& after[s].entity == strips[s].entity
                &&& forall|t: int|
                    0 <= t < strips.len() && t != s ==> #[trigger] after[t] == strips[t]
            }
            &&& nowhere ==> outcome == (OrphanOutcome::Adopt { orphan: orphan.entity, display })
                && after == strips
        }),
{
    let (space, display) = (orphan.strip.spec_id(), known[b].entity);
    lemma_owner(space, present, known, a, b);
    let f = workspace::strip_on(space, display);
    if 0 <= s < strips.len() && strips[s].id == space && strips[s].parent == display && (forall|
        t: int,
    |
        0 <= t < s ==> (#[trigger] strips[t]).id != space || strips[t].parent != display) {
        search::lemma_first_index(strips, f, s);
    }
    if forall|t: int|
        0 <= t < strips.len() ==> (#[trigger] strips[t]).id != space || strips[t].parent
            != display {
        search::lemma_no_first_index(strips, f);
    }
}

/// Orphans are settled one after the other, in their order.
pub proof fn law_orphans_are_settled_in_order(
    orphans: Seq<Orphan>,
    orphan: Orphan,
    strips: Seq<AttachedModel>,
    known: Seq<KnownDisplay>,
    present: Seq<ScannedDisplay>,
)
    ensures
        workspace::settled_all(Seq::empty(), strips, known, present) == (
            Seq::<OrphanOutcome>::empty(),
            strips,
        ),
        ({
            let (outcomes, before) = workspace::settled_all(orphans, strips, known, present);
            let (outcome, after) = workspace::settled(orphan, before, known, present);
            workspace::settled_all(orphans.push(orphan), strips, known, present) == (
                outcomes.push(outcome),
                after,
            )
        }),
{
    assert(orphans.push(orphan).drop_last() =~= orphans);
}

/// Of the windows on a space those that float and were not measured are measured too.
pub proof fn law_floating_windows_are_measured(
    ids: Seq<WinID>,
    id: WinID,
    measured: Seq<WinID>,
    windows: Seq<WindowEntry>,
    k: int,
)
    requires
        0 <= k < windows.len(),
        windows[k].id == id,
        forall|j: int| 0 <= j < k ==> (#[trigger] windows[j]).id != id,
    ensures
        ids.push(id).filter_map(workspace::floats_outside(measured, windows)) == if windows[k].floating
            && !measured.contains(id) {
            ids.filter_map(workspace::floats_outside(measured, windows)).push(windows[k].entity)
        } else {
            ids.filter_map(workspace::floats_outside(measured, windows))
        },
{
    search::lemma_filter_map_push(ids, workspace::floats_outside(measured, windows), id);
    search::lemma_first_index(windows, workspace::has_id(id), k);
}

// ---------------------------------------------------------------------------
// Displays
// ---------------------------------------------------------------------------
/// A change of the displays starts the wait anew, with all tries to come; without one
/// the wait gets shorter by the time that passes, and the scan comes when it is over.
pub proof fn law_scan_waits_for_quiet(
    state: DisplayReconcileState,
    events: Seq<Event>,
    delta: u64,
    k: int,
)
    ensures
        0 <= k < events.len() && reconcile::changes_displays(events[k]) ==> {
            let next = state.ticked(events, delta);
            &&& next.pending == Some(350_000_000u64)
            &&& next.retries_left == 3
            &&& next.verify_again
            &&& !state.scans(events, delta)
        },
        (forall|j: int|
            0 <= j < events.len() ==> !reconcile::changes_displays(#[trigger] events[j])) ==> {
            let next = state.ticked(events, delta);
            &&& state.pending is None ==> next == state && !state.scans(events, delta)
            &&& state.pending is Some && state.pending->0 > delta ==> next.pending == Some(
                (state.pending->0 - delta) as u64,
            ) && !state.scans(events, delta)
            &&& state.pending is Some && state.pending->0 <= delta ==> next.pending is None
                && state.scans(events, delta)
            &&& next.retries_left == state.retries_left
            &&& next.verify_again == state.verify_again
        },
{
    if 0 <= k < events.len() && reconcile::changes_displays(events[k]) {
        assert(reconcile::some_changes_displays(events));
    }
}

/// The displays change when the system wakes, and when one is added, removed, moved,
/// resized or configured.
pub proof fn law_display_events_are_known(event: Event)
    ensures
        event is SystemWoke ==> reconcile::changes_displays(event),
        event is DisplayAdded ==> reconcile::changes_displays(event),
        event is DisplayRemoved ==> reconcile::changes_displays(event),
        event is DisplayMoved ==> reconcile::changes_displays(event),
        event is DisplayResized ==> reconcile::changes_displays(event),
        event is DisplayConfigured ==> reconcile::changes_displays(event),
        event is Command ==> !reconcile::changes_displays(event),
        event is WindowMinimized ==> !reconcile::changes_displays(event),
        event is ApplicationHidden ==> !reconcile::changes_displays(event),
{
}

/// A complete scan is taken over at once, and an incomplete one only when it has been
/// repeated as often as it may be. The first scan that is taken over is verified by
/// another one a second later.
pub proof fn law_scan_is_taken_over(state: DisplayReconcileState)
    ensures
        state.applies(true),
        state.applies(false) <==> state.retries_left == 0,
        state.verify_again ==> state.after_scan(true).pending == Some(1_000_000_000u64)
            && !state.after_scan(true).verify_again,
        !state.verify_again ==> state.after_scan(true) == state,
        state.retries_left > 0 ==> state.after_scan(false).pending == Some(1_000_000_000u64)
            && state.after_scan(false).retries_left == state.retries_left - 1
            && state.after_scan(false).verify_again == state.verify_again,
{
}

/// When a display goes, just the strips that were on it are without one.
pub proof fn law_removed_display_leaves_its_strips(
    strips: Seq<StripPlace>,
    strip: StripPlace,
    display: Entity,
)
    ensures
        strips.push(strip).filter_map(reconcile::is_on(display)) == if strip.parent == Some(
            display,
        ) {
            strips.filter_map(reconcile::is_on(display)).push(strip.entity)
        } else {
            strips.filter_map(reconcile::is_on(display))
        },
{
    search::lemma_filter_map_push(strips, reconcile::is_on(display), strip);
}

/// A strip is noted with the bounds of the display that it is on.
pub proof fn law_strips_remember_their_display(
    strips: Seq<StripPlace>,
    strip: StripPlace,
    displays: Seq<DisplayFrame>,
    k: int,
)
    ensures
        strip.parent is None ==> strips.push(strip).filter_map(reconcile::was_on(displays))
            == strips.filter_map(reconcile::was_on(displays)),
        0 <= k < displays.len() && strip.parent == Some(displays[k].entity) && (forall|j: int|
            0 <= j < k ==> (#[trigger] displays[j]).entity != displays[k].entity) ==> strips.push(
            strip,
        ).filter_map(reconcile::was_on(displays)) == strips.filter_map(
            reconcile::was_on(displays),
        ).push((strip.entity, displays[k].bounds)),
{
    search::lemma_filter_map_push(strips, reconcile::was_on(displays), strip);
    if 0 <= k < displays.len() && strip.parent == Some(displays[k].entity) && (forall|j: int|
        0 <= j < k ==> (#[trigger] displays[j]).entity != displays[k].entity) {
        search::lemma_first_index(displays, reconcile::stands_for(displays[k].entity), k);
    }
}

/// The display that is in use gets the mark if it has not got it, and every other one
/// loses it.
pub proof fn law_one_display_is_in_use(
    displays: Seq<MarkedDisplay>,
    display: MarkedDisplay,
    id: u32,
    active: Entity,
)
    ensures
        displays.push(display).filter_map(reconcile::to_mark(id)) == if display.id == id
            && !display.active {
            displays.filter_map(reconcile::to_mark(id)).push(display.entity)
        } else {
            displays.filter_map(reconcile::to_mark(id))
        },
        displays.push(display).filter_map(reconcile::to_unmark(active)) == if display.entity
            != active && display.active {
            displays.filter_map(reconcile::to_unmark(active)).push(display.entity)
        } else {
            displays.filter_map(reconcile::to_unmark(active))
        },
{
    search::lemma_filter_map_push(displays, reconcile::to_mark(id), display);
    search::lemma_filter_map_push(displays, reconcile::to_unmark(active), display);
}

/// A display is found by its number.
pub proof fn law_display_is_found_by_number(displays: Seq<KnownDisplay>, id: u32, k: int)
    ensures
        0 <= k < displays.len() && displays[k].id == id && (forall|j: int|
            0 <= j < k ==> (#[trigger] displays[j]).id != id) ==> reconcile::display_with(
            displays,
            id,
        ) == Some(displays[k].entity),
        (forall|j: int| 0 <= j < displays.len() ==> (#[trigger] displays[j]).id != id)
            ==> reconcile::display_with(displays, id) is None,
{
    let f = reconcile::numbered(id);
    if 0 <= k < displays.len() && displays[k].id == id && (forall|j: int|
        0 <= j < k ==> (#[trigger] displays[j]).id != id) {
        search::lemma_first_index(displays, f, k);
    }
    if forall|j: int| 0 <= j < displays.len() ==> (#[trigger] displays[j]).id != id {
        search::lemma_no_first_index(displays, f);
    }
}

/// A hidden strip is parked so that only a sliver of it is inside the far corner of its
/// display; a strip from no display goes to the near corner.
pub proof fn law_hidden_strip_shows_a_sliver(point: IVec2, display: IRect, sliver: int)
    ensures
        display.max.x - reconcile::parked(display, sliver).0 == sliver,
        display.max.y - reconcile::parked(display, sliver).1 == sliver,
        reconcile::carried(point, display, None).0 == display.min.x,
        reconcile::carried(point, display, None).1 == display.min.y,
{
}

/// Where the display of a strip was is found by the strip.
pub proof fn law_previous_display_is_found(
    parents: Seq<(Entity, IRect)>,
    strip: Entity,
    k: int,
)
    ensures
        0 <= k < parents.len() && parents[k].0 == strip && (forall|j: int|
            0 <= j < k ==> (#[trigger] parents[j]).0 != strip) ==> reconcile::previous_parent(
            parents,
            strip,
        ) == Some(parents[k].1),
        (forall|j: int| 0 <= j < parents.len() ==> (#[trigger] parents[j]).0 != strip)
            ==> reconcile::previous_parent(parents, strip) is None,
{
    let f = reconcile::is_parent_of(strip);
    if 0 <= k < parents.len() && parents[k].0 == strip && (forall|j: int|
        0 <= j < k ==> (#[trigger] parents[j]).0 != strip) {
        search::lemma_first_index(parents, f, k);
    }
    if forall|j: int| 0 <= j < parents.len() ==> (#[trigger] parents[j]).0 != strip {
        search::lemma_no_first_index(parents, f);
    }
}

/// A display is gone where it is known and not scanned, new where it is scanned and not
/// known, and kept where it is both; it is in just one of the three.
pub proof fn law_plan_tells_displays_apart(
    plan: DisplayPlan,
    scan: Seq<ScannedDisplay>,
    known: Seq<KnownDisplay>,
    a: int,
    b: int,
)
    requires
        reconcile::is_plan(plan, scan, known),
    ensures
        0 <= a < scan.len() && 0 <= b < known.len() && scan[a].id == known[b].id
            ==> plan.kept@.contains(scan[a].id) && !plan.added@.contains(scan[a].id)
            && !plan.removed@.contains(scan[a].id),
        0 <= a < scan.len() && (forall|j: int|
            0 <= j < known.len() ==> (#[trigger] known[j]).id != scan[a].id)
            ==> plan.added@.contains(scan[a].id) && !plan.kept@.contains(scan[a].id)
            && !plan.removed@.contains(scan[a].id),
        0 <= b < known.len() && (forall|j: int|
            0 <= j < scan.len() ==> (#[trigger] scan[j]).id != known[b].id)
            ==> plan.removed@.contains(known[b].id) && !plan.kept@.contains(known[b].id)
            && !plan.added@.contains(known[b].id),
{
    if 0 <= a < scan.len() {
        assert(reconcile::is_present(scan, scan[a].id));
    }
    if 0 <= b < known.len() {
        assert(reconcile::is_existing(known, known[b].id));
    }
}

/// What was read of a display takes the place of what was there; what could not be read
/// stays.
pub proof fn law_what_was_read_is_taken_over<D>(
    properties: DisplayProperties<D>,
    notch: i32,
    dock: D,
    menubar: Option<i32>,
)
    ensures
        reconcile::read_in(properties, None, None, None) == properties,
        ({
            let after = reconcile::read_in(properties, Some(notch), Some(dock), Some(menubar));
            &&& after.notch_height == notch
            &&& after.dock == Some(dock)
            &&& after.menubar_height_override == menubar
        }),
{
}

/// A scan is planned for when it is due and complete, or due and not to be repeated.
pub proof fn law_complete_scan_is_planned_for(
    state: DisplayReconcileState,
    events: Seq<Event>,
    delta: u64,
    scan: Seq<ScannedDisplay>,
)
    requires
        forall|j: int|
            0 <= j < events.len() ==> !reconcile::changes_displays(#[trigger] events[j]),
    ensures
        ({
            let due = state.pending is Some && state.pending->0 <= delta;
            let complete = scan.len() > 0 && forall|k: int|
                0 <= k < scan.len() ==> (#[trigger] scan[k]).spaces@.len() > 0;
            state.plans(events, delta, scan) <==> due && (complete || state.retries_left == 0)
        }),
{
}

/// A strip on a display is refreshed: it moves as the display did, a hidden one is parked,
/// and the focused window is made visible if it is there. One without a display is not.
pub proof fn law_strip_is_refreshed_with_its_display(
    strip: PlacedStrip,
    parents: Seq<(Entity, IRect)>,
    focused: Option<Entity>,
    sliver: i32,
    refresh: Option<StripRefresh>,
)
    requires
        reconcile::refreshes(strip, parents, focused, sliver, refresh),
    ensures
        refresh is Some <==> strip.display is Some,
        strip.display is Some ==> {
            let (display, to) = (strip.display->0, refresh->0);
            let previous = reconcile::previous_parent(parents, strip.entity);
            let hidden = strip.origins.previous_origin is Some;
            &&& !hidden && previous is Some ==> to.origins.position.x - display.min.x
                == strip.origins.position.x - previous->0.min.x && to.origins.position.y
                - display.min.y == strip.origins.position.y - previous->0.min.y
            &&& !hidden && previous is None ==> to.origins.position.x == display.min.x
                && to.origins.position.y == display.min.y
            &&& hidden ==> to.origins.position.x == display.max.x - sliver
                && to.origins.position.y == display.max.y - sliver
            &&& hidden <==> to.origins.previous_origin is Some
            &&& hidden && previous is Some ==> to.origins.previous_origin->0.x - display.min.x
                == strip.origins.previous_origin->0.x - previous->0.min.x
            &&& to.forget_offset <==> previous is None
            &&& to.windows@ == layout::all_windows(strip.strip@)
            &&& focused is Some && to.windows@.contains(focused->0) ==> to.ensure_visible == focused
            &&& focused is None || !to.windows@.contains(focused->0) ==> to.ensure_visible is None
        },
{
}

} // verus!
